//! The journal: balanced entries, posted once and never edited.

use crate::accounts::{postable, ChartOfAccount, ChartOfAccounts};
use crate::error::ValidationError;
use crate::money::{convert_magnitude, spec_convert, CurrencyUnit, ExchangeRate, MAX_SCALE};
use vstd::prelude::*;

verus! {

/// One line of an entry that is yet to be posted. Amounts are minor units
/// of the entry's currency.
#[derive(Clone, Copy, Debug, PartialEq, Eq)]
pub struct CreateJournalLine {
    pub account_id: u64,
    pub partner_id: Option<u128>,
    pub debit: u64,
    pub credit: u64,
    pub currency_amount: Option<i64>,
}

/// An entry that is yet to be posted. Without a currency its amounts are
/// in the base currency; a day is counted from a fixed epoch.
#[derive(Clone, Debug, PartialEq, Eq)]
pub struct CreateJournalEntry {
    pub company_id: u128,
    pub entry_date: i32,
    pub currency: Option<CurrencyUnit>,
    pub exchange_rate: Option<ExchangeRate>,
    pub lines: Vec<CreateJournalLine>,
}

/// An entry that is yet to be posted, as a mathematical value.
pub struct CreateJournalEntryView {
    pub company_id: u128,
    pub entry_date: i32,
    pub currency: Option<CurrencyUnit>,
    pub exchange_rate: Option<ExchangeRate>,
    pub lines: Seq<CreateJournalLine>,
}

impl View for CreateJournalEntry {
    type V = CreateJournalEntryView;

    open spec fn view(&self) -> CreateJournalEntryView {
        CreateJournalEntryView {
            company_id: self.company_id,
            entry_date: self.entry_date,
            currency: self.currency,
            exchange_rate: self.exchange_rate,
            lines: self.lines@,
        }
    }
}

/// One line of a posted entry. `base_amount` is the line's effect on its
/// account in minor units of the base currency: positive for a debit.
#[derive(Clone, Copy, Debug, PartialEq, Eq)]
pub struct JournalLine {
    pub journal_entry_id: u64,
    pub account_id: u64,
    pub partner_id: Option<u128>,
    pub debit: u64,
    pub credit: u64,
    pub currency_amount: Option<i64>,
    pub base_amount: i64,
}

/// A posted entry.
#[derive(Clone, Debug, PartialEq, Eq)]
pub struct JournalEntry {
    pub id: u64,
    pub company_id: u128,
    /// How many entries the company had posted before this one.
    pub sequence: u64,
    pub entry_date: i32,
    pub currency: Option<CurrencyUnit>,
    pub exchange_rate: Option<ExchangeRate>,
    pub posted: bool,
    /// Set once a later entry has reversed this one.
    pub reversed: bool,
    /// The entry that this one reverses.
    pub reversal_of: Option<u64>,
    pub lines: Vec<JournalLine>,
}

/// A posted entry as a mathematical value.
pub struct JournalEntryView {
    pub id: u64,
    pub company_id: u128,
    pub sequence: u64,
    pub entry_date: i32,
    pub currency: Option<CurrencyUnit>,
    pub exchange_rate: Option<ExchangeRate>,
    pub posted: bool,
    pub reversed: bool,
    pub reversal_of: Option<u64>,
    pub lines: Seq<JournalLine>,
}

impl View for JournalEntry {
    type V = JournalEntryView;

    open spec fn view(&self) -> JournalEntryView {
        JournalEntryView {
            id: self.id,
            company_id: self.company_id,
            sequence: self.sequence,
            entry_date: self.entry_date,
            currency: self.currency,
            exchange_rate: self.exchange_rate,
            posted: self.posted,
            reversed: self.reversed,
            reversal_of: self.reversal_of,
            lines: self.lines@,
        }
    }
}

/// Whether amounts of an entry in `currency` can be brought into `base`:
/// they are in it already, or a rate is given and both scales are in range.
pub open spec fn convertible(
    base: CurrencyUnit,
    currency: Option<CurrencyUnit>,
    rate: Option<ExchangeRate>,
) -> bool {
    match currency {
        None => true,
        Some(c) => c == base || (rate is Some && c.scale <= MAX_SCALE && base.scale <= MAX_SCALE),
    }
}

/// `amount` minor units of the entry's currency in minor units of `base`.
pub open spec fn to_base(
    base: CurrencyUnit,
    currency: Option<CurrencyUnit>,
    rate: Option<ExchangeRate>,
    amount: int,
) -> int {
    match currency {
        None => amount,
        Some(c) => if c == base {
            amount
        } else {
            spec_convert(amount, rate->Some_0, c.scale, base.scale)
        },
    }
}

/// A line's debit less its credit, each in the base currency.
pub open spec fn line_base_amount(
    base: CurrencyUnit,
    currency: Option<CurrencyUnit>,
    rate: Option<ExchangeRate>,
    line: CreateJournalLine,
) -> int {
    to_base(base, currency, rate, line.debit as int) - to_base(
        base,
        currency,
        rate,
        line.credit as int,
    )
}

/// Whether both amounts of a line, brought into the base currency, fit a
/// signed amount.
pub open spec fn line_fits(
    base: CurrencyUnit,
    currency: Option<CurrencyUnit>,
    rate: Option<ExchangeRate>,
    line: CreateJournalLine,
) -> bool {
    &&& to_base(base, currency, rate, line.debit as int) <= i64::MAX
    &&& to_base(base, currency, rate, line.credit as int) <= i64::MAX
}

/// The sum over all lines of debit less credit, in the base currency.
pub open spec fn draft_total(
    base: CurrencyUnit,
    currency: Option<CurrencyUnit>,
    rate: Option<ExchangeRate>,
    lines: Seq<CreateJournalLine>,
) -> int
    decreases lines.len(),
{
    if lines.len() == 0 {
        0
    } else {
        draft_total(base, currency, rate, lines.drop_last()) + line_base_amount(
            base,
            currency,
            rate,
            lines.last(),
        )
    }
}

/// The sum of the base amounts of posted lines.
pub open spec fn entry_total(lines: Seq<JournalLine>) -> int
    decreases lines.len(),
{
    if lines.len() == 0 {
        0
    } else {
        entry_total(lines.drop_last()) + lines.last().base_amount
    }
}

/// How many of `entries` belong to `company_id`.
pub open spec fn company_count(entries: Seq<JournalEntryView>, company_id: u128) -> nat
    decreases entries.len(),
{
    if entries.len() == 0 {
        0
    } else {
        company_count(entries.drop_last(), company_id) + if entries.last().company_id
            == company_id {
            1nat
        } else {
            0nat
        }
    }
}

/// The line at `i` names no active account of the draft's company.
pub open spec fn unknown_at(accounts: Seq<ChartOfAccount>, draft: CreateJournalEntryView, i: int) -> bool {
    0 <= i < draft.lines.len() && !postable(accounts, draft.company_id, draft.lines[i].account_id)
}

/// The line at `i` carries a debit and a credit at once.
pub open spec fn ambiguous_at(draft: CreateJournalEntryView, i: int) -> bool {
    0 <= i < draft.lines.len() && draft.lines[i].debit != 0 && draft.lines[i].credit != 0
}

/// The line at `i` does not fit once it is in the base currency.
pub open spec fn oversized_at(base: CurrencyUnit, draft: CreateJournalEntryView, i: int) -> bool {
    0 <= i < draft.lines.len() && !line_fits(
        base,
        draft.currency,
        draft.exchange_rate,
        draft.lines[i],
    )
}

/// The first line that names no active account of the draft's company.
pub open spec fn first_unknown(accounts: Seq<ChartOfAccount>, draft: CreateJournalEntryView) -> int {
    choose|i: int|
        unknown_at(accounts, draft, i) && forall|j: int|
            0 <= j < i ==> !unknown_at(accounts, draft, j)
}

/// The first line that carries a debit and a credit at once.
pub open spec fn first_ambiguous(draft: CreateJournalEntryView) -> int {
    choose|i: int| ambiguous_at(draft, i) && forall|j: int| 0 <= j < i ==> !ambiguous_at(draft, j)
}

/// Why a draft is turned down, if it is. The rules are tried in this
/// order, and the first that fails decides: every line names an active
/// account of the company; no line has a debit and a credit at once; the
/// amounts can be brought into the base currency; debits and credits
/// cancel there; there are two lines or more.
pub open spec fn rejection(
    accounts: Seq<ChartOfAccount>,
    base: CurrencyUnit,
    draft: CreateJournalEntryView,
) -> Option<ValidationError> {
    let total = draft_total(base, draft.currency, draft.exchange_rate, draft.lines);
    if exists|i: int| unknown_at(accounts, draft, i) {
        Some(
            ValidationError::UnknownAccount {
                account_id: draft.lines[first_unknown(accounts, draft)].account_id,
            },
        )
    } else if exists|i: int| ambiguous_at(draft, i) {
        Some(ValidationError::AmbiguousLine { line: first_ambiguous(draft) as usize })
    } else if !convertible(base, draft.currency, draft.exchange_rate) {
        Some(ValidationError::InvalidScale)
    } else if exists|i: int| oversized_at(base, draft, i) {
        Some(ValidationError::AmountOverflow)
    } else if total != 0 {
        Some(ValidationError::Unbalanced { delta: total as i128 })
    } else if draft.lines.len() < 2 {
        Some(ValidationError::TooFewLines)
    } else {
        None
    }
}

/// The lines of a draft as they stand once posted under `entry_id`.
pub open spec fn posted_lines(base: CurrencyUnit, draft: CreateJournalEntryView, entry_id: u64) -> Seq<
    JournalLine,
> {
    Seq::new(
        draft.lines.len(),
        |i: int|
            JournalLine {
                journal_entry_id: entry_id,
                account_id: draft.lines[i].account_id,
                partner_id: draft.lines[i].partner_id,
                debit: draft.lines[i].debit,
                credit: draft.lines[i].credit,
                currency_amount: draft.lines[i].currency_amount,
                base_amount: line_base_amount(
                    base,
                    draft.currency,
                    draft.exchange_rate,
                    draft.lines[i],
                ) as i64,
            },
    )
}

/// The entry that posting `draft` adds to `entries`.
pub open spec fn posted_entry(
    entries: Seq<JournalEntryView>,
    base: CurrencyUnit,
    draft: CreateJournalEntryView,
) -> JournalEntryView {
    JournalEntryView {
        id: entries.len() as u64,
        company_id: draft.company_id,
        sequence: company_count(entries, draft.company_id) as u64,
        entry_date: draft.entry_date,
        currency: draft.currency,
        exchange_rate: draft.exchange_rate,
        posted: true,
        reversed: false,
        reversal_of: None,
        lines: posted_lines(base, draft, entries.len() as u64),
    }
}

/// The lines of `lines` swapped side for side under a new entry id: what
/// was a debit is a credit, and the effect on the account changes sign.
pub open spec fn reversed_lines(lines: Seq<JournalLine>, entry_id: u64) -> Seq<JournalLine> {
    Seq::new(
        lines.len(),
        |i: int|
            JournalLine {
                journal_entry_id: entry_id,
                account_id: lines[i].account_id,
                partner_id: lines[i].partner_id,
                debit: lines[i].credit,
                credit: lines[i].debit,
                currency_amount: lines[i].currency_amount,
                base_amount: (-lines[i].base_amount) as i64,
            },
    )
}

/// The entry that reversing the entry `entry_id` on `date` adds to
/// `entries`: same company, currency and rate, the lines swapped, and a
/// reference to the original.
pub open spec fn reversal_entry(entries: Seq<JournalEntryView>, entry_id: u64, date: i32) -> JournalEntryView {
    let original = entries[entry_id as int];
    JournalEntryView {
        id: entries.len() as u64,
        company_id: original.company_id,
        sequence: company_count(entries, original.company_id) as u64,
        entry_date: date,
        currency: original.currency,
        exchange_rate: original.exchange_rate,
        posted: true,
        reversed: false,
        reversal_of: Some(entry_id),
        lines: reversed_lines(original.lines, entries.len() as u64),
    }
}

/// `entry` with its reversed marker set.
pub open spec fn marked_reversed(entry: JournalEntryView) -> JournalEntryView {
    JournalEntryView { reversed: true, ..entry }
}

/// The journal after the entry `entry_id` was reversed on `date`: the
/// original marked, the reversal appended, nothing else touched.
pub open spec fn after_reversal(entries: Seq<JournalEntryView>, entry_id: u64, date: i32) -> Seq<
    JournalEntryView,
> {
    entries.update(entry_id as int, marked_reversed(entries[entry_id as int])).push(
        reversal_entry(entries, entry_id, date),
    )
}

/// The lines among `lines` that are on `account_id`, in their order.
pub open spec fn account_lines(lines: Seq<JournalLine>, account_id: u64) -> Seq<JournalLine>
    decreases lines.len(),
{
    if lines.len() == 0 {
        Seq::empty()
    } else {
        let rest = account_lines(lines.drop_last(), account_id);
        if lines.last().account_id == account_id {
            rest.push(lines.last())
        } else {
            rest
        }
    }
}

/// The lines on `account_id` of the entries dated from `from` to `to`,
/// both days included, in the order of posting.
pub open spec fn account_ledger(
    entries: Seq<JournalEntryView>,
    account_id: u64,
    from: i32,
    to: i32,
) -> Seq<JournalLine>
    decreases entries.len(),
{
    if entries.len() == 0 {
        Seq::empty()
    } else {
        let rest = account_ledger(entries.drop_last(), account_id, from, to);
        if from <= entries.last().entry_date <= to {
            rest + account_lines(entries.last().lines, account_id)
        } else {
            rest
        }
    }
}

/// The effect of `lines` on the balance of `account_id`, in minor units of
/// the base currency.
pub open spec fn account_effect(lines: Seq<JournalLine>, account_id: u64) -> int {
    entry_total(account_lines(lines, account_id))
}

/// The debits of `lines` in the base currency, summed.
pub open spec fn debit_total(
    base: CurrencyUnit,
    currency: Option<CurrencyUnit>,
    rate: Option<ExchangeRate>,
    lines: Seq<JournalLine>,
) -> int
    decreases lines.len(),
{
    if lines.len() == 0 {
        0
    } else {
        debit_total(base, currency, rate, lines.drop_last()) + to_base(
            base,
            currency,
            rate,
            lines.last().debit as int,
        )
    }
}

/// The credits of `lines` in the base currency, summed.
pub open spec fn credit_total(
    base: CurrencyUnit,
    currency: Option<CurrencyUnit>,
    rate: Option<ExchangeRate>,
    lines: Seq<JournalLine>,
) -> int
    decreases lines.len(),
{
    if lines.len() == 0 {
        0
    } else {
        credit_total(base, currency, rate, lines.drop_last()) + to_base(
            base,
            currency,
            rate,
            lines.last().credit as int,
        )
    }
}

/// What holds of every line of a posted entry: it carries the entry's id,
/// it does not have a debit and a credit at once, and its base amount is
/// its debit less its credit in the base currency, which can be negated.
pub open spec fn line_wf(
    base: CurrencyUnit,
    currency: Option<CurrencyUnit>,
    rate: Option<ExchangeRate>,
    entry_id: int,
    l: JournalLine,
) -> bool {
    &&& l.journal_entry_id == entry_id
    &&& !(l.debit != 0 && l.credit != 0)
    &&& -i64::MAX <= l.base_amount
    &&& l.base_amount == to_base(base, currency, rate, l.debit as int) - to_base(
        base,
        currency,
        rate,
        l.credit as int,
    )
}

/// What holds of every posted entry, given the entries before it: its id
/// is its position, its sequence number counts the entries of its company
/// before it, it has two lines or more, its amounts can be brought into
/// the base currency and cancel there, and what it reverses came before.
pub open spec fn entry_wf(entries: Seq<JournalEntryView>, base: CurrencyUnit, i: int) -> bool {
    let e = entries[i];
    &&& e.id == i
    &&& e.posted
    &&& e.sequence == company_count(entries.take(i), e.company_id)
    &&& e.lines.len() >= 2
    &&& convertible(base, e.currency, e.exchange_rate)
    &&& entry_total(e.lines) == 0
    &&& e.reversal_of matches Some(k) ==> k < i
    &&& forall|j: int|
        0 <= j < e.lines.len() ==> line_wf(
            base,
            e.currency,
            e.exchange_rate,
            i,
            #[trigger] e.lines[j],
        )
}

/// Whether some entries make a sound journal in `base`.
pub open spec fn sound(base: CurrencyUnit, entries: Seq<JournalEntryView>) -> bool {
    &&& base.scale <= MAX_SCALE
    &&& forall|i: int| 0 <= i < entries.len() ==> #[trigger] entry_wf(entries, base, i)
}

/// Some entries as mathematical values.
pub open spec fn entry_views(entries: Seq<JournalEntry>) -> Seq<JournalEntryView> {
    Seq::new(entries.len(), |i: int| entries[i]@)
}

/// The journal of all companies, in the order of posting, with the base
/// currency that every entry balances in.
pub struct Journal {
    base: CurrencyUnit,
    entries: Vec<JournalEntry>,
    counters: Vec<CompanyCount>,
}

/// How many entries a company has posted.
#[derive(Clone, Copy, Debug, PartialEq, Eq)]
pub struct CompanyCount {
    pub company_id: u128,
    pub entries: u64,
}

/// Whether the counters say of every company with an entry how many it
/// has, once for each.
pub open spec fn counted(counters: Seq<CompanyCount>, entries: Seq<JournalEntryView>) -> bool {
    &&& forall|k: int|
        0 <= k < counters.len() ==> (#[trigger] counters[k]).entries == company_count(
            entries,
            counters[k].company_id,
        )
    &&& forall|k: int, l: int|
        0 <= k < l < counters.len() ==> (#[trigger] counters[k]).company_id != (
        #[trigger] counters[l]).company_id
    &&& forall|j: int|
        0 <= j < entries.len() ==> has_counter(counters, (#[trigger] entries[j]).company_id)
}

/// Whether the company has a counter.
pub open spec fn has_counter(counters: Seq<CompanyCount>, company_id: u128) -> bool {
    exists|k: int| 0 <= k < counters.len() && (#[trigger] counters[k]).company_id == company_id
}

/// A company has no more entries than there are.
proof fn lemma_count_bound(entries: Seq<JournalEntryView>, company_id: u128)
    ensures
        company_count(entries, company_id) <= entries.len(),
    decreases entries.len(),
{
    if entries.len() > 0 {
        lemma_count_bound(entries.drop_last(), company_id);
    }
}

/// A company without an entry counts nothing.
proof fn lemma_count_none(entries: Seq<JournalEntryView>, company_id: u128)
    requires
        forall|j: int| 0 <= j < entries.len() ==> (#[trigger] entries[j]).company_id != company_id,
    ensures
        company_count(entries, company_id) == 0,
    decreases entries.len(),
{
    if entries.len() > 0 {
        assert(entries[entries.len() - 1].company_id != company_id);
        lemma_count_none(entries.drop_last(), company_id);
    }
}

/// How many entries the company has, by its counter.
fn counter_of(counters: &Vec<CompanyCount>, company_id: u128, Ghost(entries): Ghost<
    Seq<JournalEntryView>,
>) -> (r: (u64, Option<usize>))
    requires
        counted(counters@, entries),
    ensures
        r.0 == company_count(entries, company_id),
        r.1 is None ==> r.0 == 0,
        match r.1 {
            Some(k) => k < counters@.len() && counters@[k as int].company_id == company_id,
            None => !has_counter(counters@, company_id),
        },
{
    let mut k: usize = 0;
    while k < counters.len()
        invariant
            k <= counters@.len(),
            counted(counters@, entries),
            forall|l: int| 0 <= l < k ==> (#[trigger] counters@[l]).company_id != company_id,
        decreases counters.len() - k,
    {
        if counters[k].company_id == company_id {
            return (counters[k].entries, Some(k));
        }
        k = k + 1;
    }
    proof {
        assert forall|j: int| 0 <= j < entries.len() implies (#[trigger] entries[j]).company_id
            != company_id by {
            assert(has_counter(counters@, entries[j].company_id));
        }
        lemma_count_none(entries, company_id);
    }
    (0, None)
}

/// Counts one more entry for its company.
fn count_entry(
    counters: &mut Vec<CompanyCount>,
    company_id: u128,
    Ghost(entries): Ghost<Seq<JournalEntryView>>,
    Ghost(added): Ghost<JournalEntryView>,
)
    requires
        counted(old(counters)@, entries),
        added.company_id == company_id,
        entries.len() < u64::MAX,
    ensures
        counted(final(counters)@, entries.push(added)),
{
    let found = counter_of(counters, company_id, Ghost(entries));
    proof {
        lemma_count_bound(entries, company_id);
        assert(entries.push(added).drop_last() =~= entries);
    }
    match found.1 {
        Some(k) => {
            counters[k].entries = found.0 + 1;
        },
        None => {
            counters.push(CompanyCount { company_id, entries: 1 });
        },
    }
    proof {
        let after = entries.push(added);
        assert forall|j: int| 0 <= j < after.len() implies has_counter(
            counters@,
            (#[trigger] after[j]).company_id,
        ) by {
            if j < entries.len() {
                assert(has_counter(old(counters)@, entries[j].company_id));
                let w = choose|w: int|
                    0 <= w < old(counters)@.len() && (#[trigger] old(counters)@[w]).company_id
                        == entries[j].company_id;
                assert(counters@[w].company_id == entries[j].company_id);
            } else {
                match found.1 {
                    Some(k) => {
                        assert(counters@[k as int].company_id == company_id);
                    },
                    None => {
                        assert(counters@[counters@.len() - 1].company_id == company_id);
                    },
                }
            }
        }
        assert forall|k: int| 0 <= k < counters@.len() implies (#[trigger] counters@[k]).entries
            == company_count(after, counters@[k].company_id) by {
            let c = counters@[k].company_id;
            assert(after.drop_last() =~= entries);
            assert(after.last() == added);
            assert(company_count(after, c) == company_count(entries, c) + if c == company_id {
                1nat
            } else {
                0nat
            });
            let was = old(counters)@;
            if k < was.len() {
                assert(was[k].entries == company_count(entries, was[k].company_id));
                match found.1 {
                    Some(at) => {
                        if k < at {
                            assert(was[k].company_id != was[at as int].company_id);
                            assert(counters@[k] == was[k]);
                        } else if at < k {
                            assert(was[at as int].company_id != was[k].company_id);
                            assert(counters@[k] == was[k]);
                        } else {
                            assert(counters@[k].entries == found.0 + 1);
                            assert(counters@[k].company_id == company_id);
                        }
                    },
                    None => {
                        assert(counters@[k] == was[k]);
                        if was[k].company_id == company_id {
                            assert(has_counter(was, company_id));
                        }
                    },
                }
            } else {
                assert(found.1 is None);
                assert(counters@[k] == (CompanyCount { company_id, entries: 1 }));
            }
        }
    }
}

/// The counters read nothing of an entry but its company.
proof fn lemma_counted_by_company(
    counters: Seq<CompanyCount>,
    a: Seq<JournalEntryView>,
    b: Seq<JournalEntryView>,
)
    requires
        counted(counters, a),
        a.len() == b.len(),
        forall|i: int| 0 <= i < a.len() ==> (#[trigger] a[i]).company_id == b[i].company_id,
    ensures
        counted(counters, b),
{
    assert forall|k: int| 0 <= k < counters.len() implies (#[trigger] counters[k]).entries
        == company_count(b, counters[k].company_id) by {
        lemma_company_count_by_company(a, b, counters[k].company_id);
    }
    assert forall|j: int| 0 <= j < b.len() implies has_counter(
        counters,
        (#[trigger] b[j]).company_id,
    ) by {
        assert(has_counter(counters, a[j].company_id));
    }
}

impl View for Journal {
    type V = Seq<JournalEntryView>;

    closed spec fn view(&self) -> Seq<JournalEntryView> {
        Seq::new(self.entries@.len(), |i: int| self.entries@[i]@)
    }
}

impl Journal {
    /// The currency that every entry balances in.
    pub closed spec fn base(&self) -> CurrencyUnit {
        self.base
    }

    /// Every entry is balanced, has two lines or more, carries its position
    /// as its id and its rank within its company as its sequence number.
    pub open spec fn wf(&self) -> bool {
        &&& sound(self.base(), self@)
        &&& counted(self.tally(), self@)
    }

    /// The count of entries that the journal keeps for each company.
    pub closed spec fn tally(&self) -> Seq<CompanyCount> {
        self.counters@
    }

    /// An empty journal that balances in `base`.
    ///
    /// Fails with `InvalidScale` where the scale of `base` is beyond
    /// `MAX_SCALE`.
    pub fn new(base: CurrencyUnit) -> (r: Result<Journal, ValidationError>)
        ensures
            base.scale > MAX_SCALE ==> r == Err::<Journal, ValidationError>(
                ValidationError::InvalidScale,
            ),
            base.scale <= MAX_SCALE ==> r is Ok && r->Ok_0.wf() && r->Ok_0.base() == base
                && r->Ok_0@ == Seq::<JournalEntryView>::empty(),
    {
        if base.scale > MAX_SCALE {
            return Err(ValidationError::InvalidScale);
        }
        let journal = Journal { base, entries: Vec::new(), counters: Vec::new() };
        proof {
            assert(journal@ =~= Seq::<JournalEntryView>::empty());
        }
        Ok(journal)
    }

    /// The currency that every entry balances in.
    pub fn base_currency(&self) -> (r: CurrencyUnit)
        ensures
            r == self.base(),
    {
        self.base
    }

    /// How many entries have been posted.
    pub fn len(&self) -> (n: usize)
        ensures
            n == self@.len(),
    {
        self.entries.len()
    }
}

/// A first line without an active account is the one that `first_unknown`
/// names.
proof fn lemma_first_unknown(accounts: Seq<ChartOfAccount>, draft: CreateJournalEntryView, k: int)
    requires
        unknown_at(accounts, draft, k),
        forall|j: int| 0 <= j < k ==> !unknown_at(accounts, draft, j),
    ensures
        first_unknown(accounts, draft) == k,
{
    let c = first_unknown(accounts, draft);
    assert(unknown_at(accounts, draft, c) && forall|j: int|
        0 <= j < c ==> !unknown_at(accounts, draft, j));
    if c < k {
        assert(!unknown_at(accounts, draft, c));
    } else if k < c {
        assert(!unknown_at(accounts, draft, k));
    }
}

/// A first line with a debit and a credit is the one that
/// `first_ambiguous` names.
proof fn lemma_first_ambiguous(draft: CreateJournalEntryView, k: int)
    requires
        ambiguous_at(draft, k),
        forall|j: int| 0 <= j < k ==> !ambiguous_at(draft, j),
    ensures
        first_ambiguous(draft) == k,
{
    let c = first_ambiguous(draft);
    assert(ambiguous_at(draft, c) && forall|j: int| 0 <= j < c ==> !ambiguous_at(draft, j));
    if c < k {
        assert(!ambiguous_at(draft, c));
    } else if k < c {
        assert(!ambiguous_at(draft, k));
    }
}

/// Brings one amount of an entry into the base currency, where it fits.
fn amount_to_base(
    base: CurrencyUnit,
    currency: Option<CurrencyUnit>,
    rate: Option<ExchangeRate>,
    amount: u64,
) -> (r: Option<u64>)
    requires
        convertible(base, currency, rate),
    ensures
        0 <= to_base(base, currency, rate, amount as int),
        match r {
            Some(v) => v == to_base(base, currency, rate, amount as int) && v <= i64::MAX,
            None => to_base(base, currency, rate, amount as int) > i64::MAX,
        },
{
    let foreign: Option<CurrencyUnit> = match currency {
        None => None,
        Some(c) => if c == base {
            None
        } else {
            Some(c)
        },
    };
    match foreign {
        None => {
            if amount > 0x7fff_ffff_ffff_ffffu64 {
                None
            } else {
                Some(amount)
            }
        },
        Some(c) => {
            match rate {
                Some(x) => {
                    match convert_magnitude(amount, x, c.scale, base.scale) {
                        Ok(v) => Some(v),
                        Err(_) => None,
                    }
                },
                None => None,
            }
        },
    }
}

impl Journal {
    /// How many entries the company has posted.
    fn count_company(&self, company_id: u128) -> (n: u64)
        requires
            self.wf(),
        ensures
            n == company_count(self@, company_id),
    {
        counter_of(&self.counters, company_id, Ghost(self@)).0
    }

    /// Tries a draft against the rules of posting and, where it passes,
    /// gives its lines as they would be posted under `entry_id`.
    fn prepare(&self, accounts: &ChartOfAccounts, draft: &CreateJournalEntry, entry_id: u64) -> (r:
        Result<Vec<JournalLine>, ValidationError>)
        requires
            self.wf(),
        ensures
            match rejection(accounts@, self.base(), draft@) {
                Some(e) => r == Err::<Vec<JournalLine>, ValidationError>(e),
                None => r is Ok && r->Ok_0@ == posted_lines(self.base(), draft@, entry_id)
                    && entry_total(r->Ok_0@) == 0 && forall|j: int|
                    0 <= j < r->Ok_0@.len() ==> -i64::MAX <= (#[trigger] r->Ok_0@[j]).base_amount
                        == line_base_amount(
                        self.base(),
                        draft.currency,
                        draft.exchange_rate,
                        draft.lines@[j],
                    ),
            },
    {
        let n: usize = draft.lines.len();
        let base: CurrencyUnit = self.base;
        let mut i: usize = 0;
        while i < n
            invariant
                i <= n == draft.lines@.len(),
                forall|j: int| 0 <= j < i ==> !unknown_at(accounts@, draft@, j),
            decreases n - i,
        {
            if !accounts.is_postable(draft.company_id, draft.lines[i].account_id) {
                proof {
                    lemma_first_unknown(accounts@, draft@, i as int);
                }
                return Err(
                    ValidationError::UnknownAccount { account_id: draft.lines[i].account_id },
                );
            }
            i = i + 1;
        }
        i = 0;
        while i < n
            invariant
                i <= n == draft.lines@.len(),
                forall|j: int| 0 <= j < n ==> !unknown_at(accounts@, draft@, j),
                forall|j: int| 0 <= j < i ==> !ambiguous_at(draft@, j),
            decreases n - i,
        {
            if draft.lines[i].debit != 0 && draft.lines[i].credit != 0 {
                proof {
                    lemma_first_ambiguous(draft@, i as int);
                    assert(!(exists|k: int| unknown_at(accounts@, draft@, k)));
                    assert(ambiguous_at(draft@, i as int));
                    assert(first_ambiguous(draft@) as usize == i);
                }
                return Err(ValidationError::AmbiguousLine { line: i });
            }
            i = i + 1;
        }
        let foreign: bool = match draft.currency {
            None => false,
            Some(c) => c != base,
        };
        if foreign {
            let defined: bool = match (draft.currency, draft.exchange_rate) {
                (Some(c), Some(_)) => c.scale <= MAX_SCALE,
                _ => false,
            };
            if !defined {
                return Err(ValidationError::InvalidScale);
            }
        }
        let mut lines: Vec<JournalLine> = Vec::new();
        let mut total: i128 = 0;
        i = 0;
        proof {
            assert(draft.lines@.take(0) =~= Seq::<CreateJournalLine>::empty());
        }
        while i < n
            invariant
                i <= n == draft.lines@.len(),
                base == self.base(),
                convertible(base, draft.currency, draft.exchange_rate),
                forall|j: int| 0 <= j < n ==> !unknown_at(accounts@, draft@, j),
                forall|j: int| 0 <= j < n ==> !ambiguous_at(draft@, j),
                forall|j: int| 0 <= j < i ==> !oversized_at(base, draft@, j),
                lines@.len() == i,
                forall|j: int|
                    0 <= j < i ==> #[trigger] lines@[j] == posted_lines(base, draft@, entry_id)[j],
                forall|j: int|
                    0 <= j < i ==> -i64::MAX <= (#[trigger] lines@[j]).base_amount
                        == line_base_amount(
                        base,
                        draft.currency,
                        draft.exchange_rate,
                        draft.lines@[j],
                    ),
                total == draft_total(
                    base,
                    draft.currency,
                    draft.exchange_rate,
                    draft.lines@.take(i as int),
                ),
                total == entry_total(lines@),
                -(i * i64::MAX) <= total <= i * i64::MAX,
            decreases n - i,
        {
            let line: CreateJournalLine = draft.lines[i];
            let debit = amount_to_base(base, draft.currency, draft.exchange_rate, line.debit);
            let credit = amount_to_base(base, draft.currency, draft.exchange_rate, line.credit);
            match (debit, credit) {
                (Some(d), Some(c)) => {
                    proof {
                        assert(draft.lines@.take(i + 1).drop_last() =~= draft.lines@.take(
                            i as int,
                        ));
                        assert(draft.lines@.take(i + 1).last() == line);
                        assert((i + 1) * i64::MAX == i * i64::MAX + i64::MAX) by (nonlinear_arith);
                        assert(i * i64::MAX <= usize::MAX * i64::MAX) by (nonlinear_arith)
                            requires
                                i <= usize::MAX,
                        ;
                    }
                    let amount: i64 = d as i64 - c as i64;
                    let ghost before = lines@;
                    lines.push(
                        JournalLine {
                            journal_entry_id: entry_id,
                            account_id: line.account_id,
                            partner_id: line.partner_id,
                            debit: line.debit,
                            credit: line.credit,
                            currency_amount: line.currency_amount,
                            base_amount: amount,
                        },
                    );
                    proof {
                        assert(lines@.drop_last() =~= before);
                    }
                    total = total + amount as i128;
                },
                _ => {
                    proof {
                        assert(oversized_at(base, draft@, i as int));
                    }
                    return Err(ValidationError::AmountOverflow);
                },
            }
            i = i + 1;
        }
        proof {
            assert(draft.lines@.take(n as int) =~= draft.lines@);
            assert(lines@ =~= posted_lines(base, draft@, entry_id));
        }
        if total != 0 {
            return Err(ValidationError::Unbalanced { delta: total });
        }
        if n < 2 {
            return Err(ValidationError::TooFewLines);
        }
        Ok(lines)
    }

    /// Tries a draft against the rules of posting without posting it.
    pub fn validate(&self, accounts: &ChartOfAccounts, draft: &CreateJournalEntry) -> (r: Result<
        (),
        ValidationError,
    >)
        requires
            self.wf(),
        ensures
            match rejection(accounts@, self.base(), draft@) {
                Some(e) => r == Err::<(), ValidationError>(e),
                None => r == Ok::<(), ValidationError>(()),
            },
    {
        match self.prepare(accounts, draft, 0) {
            Ok(_) => Ok(()),
            Err(e) => Err(e),
        }
    }

    /// Validates a draft and, where it passes, posts it for good and
    /// returns the new entry's id.
    ///
    /// A draft that `rejection` turns down is refused with that error and
    /// leaves the journal as it was. One that passes is appended as
    /// `posted_entry` describes: its id is its position, its sequence
    /// number counts the entries that its company had before.
    pub fn post(&mut self, accounts: &ChartOfAccounts, draft: &CreateJournalEntry) -> (r: Result<
        u64,
        ValidationError,
    >)
        requires
            old(self).wf(),
        ensures
            final(self).wf(),
            final(self).base() == old(self).base(),
            match rejection(accounts@, old(self).base(), draft@) {
                Some(e) => r == Err::<u64, ValidationError>(e) && final(self)@ == old(self)@,
                None => (r matches Ok(id) && id == old(self)@.len()) && final(self)@
                    == old(self)@.push(posted_entry(old(self)@, old(self).base(), draft@)),
            },
    {
        let id: u64 = self.entries.len() as u64;
        let lines: Vec<JournalLine> = match self.prepare(accounts, draft, id) {
            Ok(lines) => lines,
            Err(e) => {
                return Err(e);
            },
        };
        let sequence: u64 = self.count_company(draft.company_id);
        let entry = JournalEntry {
            id,
            company_id: draft.company_id,
            sequence,
            entry_date: draft.entry_date,
            currency: draft.currency,
            exchange_rate: draft.exchange_rate,
            posted: true,
            reversed: false,
            reversal_of: None,
            lines,
        };
        self.entries.push(entry);
        let length: usize = self.entries.len();
        count_entry(
            &mut self.counters,
            draft.company_id,
            Ghost(old(self)@),
            Ghost(posted_entry(old(self)@, old(self).base(), draft@)),
        );
        proof {
            let added = posted_entry(old(self)@, self.base(), draft@);
            assert(self@ =~= old(self)@.push(added));
            assert(self@.take(id as int) =~= old(self)@);
            assert forall|k: int| 0 <= k < self@.len() implies #[trigger] entry_wf(
                self@,
                self.base(),
                k,
            ) by {
                if k < id {
                    assert(entry_wf(old(self)@, self.base(), k));
                    assert(self@.take(k) =~= old(self)@.take(k));
                } else {
                    assert(self@[k] == added);
                    assert forall|j: int| 0 <= j < added.lines.len() implies !((
                    #[trigger] added.lines[j]).debit != 0 && added.lines[j].credit != 0) by {
                        assert(!ambiguous_at(draft@, j));
                    }
                }
            }
        }
        Ok(id)
    }
}

/// The count of a company's entries looks at nothing but the companies.
proof fn lemma_company_count_by_company(
    a: Seq<JournalEntryView>,
    b: Seq<JournalEntryView>,
    company_id: u128,
)
    requires
        a.len() == b.len(),
        forall|i: int| 0 <= i < a.len() ==> (#[trigger] a[i]).company_id == b[i].company_id,
    ensures
        company_count(a, company_id) == company_count(b, company_id),
    decreases a.len(),
{
    if a.len() > 0 {
        assert(a.last().company_id == b.last().company_id);
        lemma_company_count_by_company(a.drop_last(), b.drop_last(), company_id);
    }
}

/// Swapping every line's sides changes the sign of the total.
proof fn lemma_reversed_total(lines: Seq<JournalLine>, entry_id: u64)
    requires
        forall|j: int| 0 <= j < lines.len() ==> -i64::MAX <= (#[trigger] lines[j]).base_amount,
    ensures
        entry_total(reversed_lines(lines, entry_id)) == -entry_total(lines),
    decreases lines.len(),
{
    if lines.len() > 0 {
        assert(reversed_lines(lines, entry_id).drop_last() =~= reversed_lines(
            lines.drop_last(),
            entry_id,
        ));
        assert(-i64::MAX <= lines[lines.len() - 1].base_amount);
        lemma_reversed_total(lines.drop_last(), entry_id);
    }
}

impl Journal {
    /// The entry with this id.
    ///
    /// Fails with `NotFound` where there is none.
    pub fn entry(&self, entry_id: u64) -> (r: Result<&JournalEntry, ValidationError>)
        ensures
            entry_id >= self@.len() ==> r == Err::<&JournalEntry, ValidationError>(
                ValidationError::NotFound,
            ),
            entry_id < self@.len() ==> r is Ok && r->Ok_0@ == self@[entry_id as int],
    {
        if entry_id >= self.entries.len() as u64 {
            Err(ValidationError::NotFound)
        } else {
            Ok(&self.entries[entry_id as usize])
        }
    }

    /// Cancels a posted entry by posting its mirror image, dated `date`,
    /// and returns the new entry's id. The original stays, marked as
    /// reversed; the new entry refers to it.
    ///
    /// Fails with `NotFound` where there is no such entry and with
    /// `AlreadyReversed` where it was reversed before; the journal is then
    /// as it was.
    pub fn reverse(&mut self, entry_id: u64, date: i32) -> (r: Result<u64, ValidationError>)
        requires
            old(self).wf(),
        ensures
            final(self).wf(),
            final(self).base() == old(self).base(),
            entry_id >= old(self)@.len() ==> r == Err::<u64, ValidationError>(
                ValidationError::NotFound,
            ) && final(self)@ == old(self)@,
            entry_id < old(self)@.len() && old(self)@[entry_id as int].reversed ==> r == Err::<
                u64,
                ValidationError,
            >(ValidationError::AlreadyReversed) && final(self)@ == old(self)@,
            entry_id < old(self)@.len() && !old(self)@[entry_id as int].reversed ==> (r matches Ok(id)
                && id == old(self)@.len()) && final(self)@ == after_reversal(
                old(self)@,
                entry_id,
                date,
            ),
    {
        if entry_id >= self.entries.len() as u64 {
            return Err(ValidationError::NotFound);
        }
        let at: usize = entry_id as usize;
        if self.entries[at].reversed {
            return Err(ValidationError::AlreadyReversed);
        }
        let id: u64 = self.entries.len() as u64;
        let company_id: u128 = self.entries[at].company_id;
        let currency: Option<CurrencyUnit> = self.entries[at].currency;
        let exchange_rate: Option<ExchangeRate> = self.entries[at].exchange_rate;
        let sequence: u64 = self.count_company(company_id);
        let n: usize = self.entries[at].lines.len();
        let mut lines: Vec<JournalLine> = Vec::new();
        let mut j: usize = 0;
        proof {
            assert(entry_wf(self@, self.base(), at as int));
        }
        while j < n
            invariant
                j <= n == self.entries@[at as int].lines@.len(),
                at < self.entries@.len(),
                lines@.len() == j,
                forall|k: int|
                    0 <= k < n ==> -i64::MAX <= (#[trigger] self.entries@[at as int].lines@[k]).base_amount,
                forall|k: int|
                    0 <= k < j ==> #[trigger] lines@[k] == reversed_lines(
                        self.entries@[at as int].lines@,
                        id,
                    )[k],
            decreases n - j,
        {
            let l: JournalLine = self.entries[at].lines[j];
            lines.push(
                JournalLine {
                    journal_entry_id: id,
                    account_id: l.account_id,
                    partner_id: l.partner_id,
                    debit: l.credit,
                    credit: l.debit,
                    currency_amount: l.currency_amount,
                    base_amount: -l.base_amount,
                },
            );
            j = j + 1;
        }
        let entry = JournalEntry {
            id,
            company_id,
            sequence,
            entry_date: date,
            currency,
            exchange_rate,
            posted: true,
            reversed: false,
            reversal_of: Some(entry_id),
            lines,
        };
        self.entries[at].reversed = true;
        self.entries.push(entry);
        let length: usize = self.entries.len();
        proof {
            let before = old(self)@;
            let marked = before.update(at as int, marked_reversed(before[at as int]));
            lemma_counted_by_company(old(self).tally(), before, marked);
        }
        count_entry(
            &mut self.counters,
            company_id,
            Ghost(old(self)@.update(at as int, marked_reversed(old(self)@[at as int]))),
            Ghost(reversal_entry(old(self)@, entry_id, date)),
        );
        proof {
            let before = old(self)@;
            let original = before[at as int];
            let added = reversal_entry(before, entry_id, date);
            assert(entry@.lines =~= reversed_lines(original.lines, id));
            assert(self@ =~= after_reversal(before, entry_id, date));
            lemma_reversed_total(original.lines, id);
            assert forall|k: int| 0 <= k < self@.len() implies #[trigger] entry_wf(
                self@,
                self.base(),
                k,
            ) by {
                assert(self@.take(k).len() == before.take(k).len());
                assert forall|m: int| 0 <= m < k implies (#[trigger] self@.take(
                    k,
                )[m]).company_id == before.take(k)[m].company_id by {}
                lemma_company_count_by_company(
                    self@.take(k),
                    before.take(k),
                    self@[k].company_id,
                );
                if k < id {
                    assert(entry_wf(before, self.base(), k));
                    assert(self@[k].lines == before[k].lines);
                } else {
                    assert(before.take(k) =~= before);
                    assert(self@[k] == added);
                    assert forall|m: int| 0 <= m < added.lines.len() implies {
                        let l = #[trigger] added.lines[m];
                        &&& l.journal_entry_id == k
                        &&& !(l.debit != 0 && l.credit != 0)
                        &&& -i64::MAX <= l.base_amount
                        &&& l.base_amount == to_base(
                            self.base(),
                            added.currency,
                            added.exchange_rate,
                            l.debit as int,
                        ) - to_base(
                            self.base(),
                            added.currency,
                            added.exchange_rate,
                            l.credit as int,
                        )
                    } by {
                        let o = original.lines[m];
                        assert(-i64::MAX <= o.base_amount);
                    }
                }
            }
        }
        Ok(id)
    }

    /// The posted lines on one account, of the entries dated from `from`
    /// to `to` (both included), in the order of posting.
    pub fn get_account_ledger(&self, account_id: u64, from: i32, to: i32) -> (r: Vec<JournalLine>)
        ensures
            r@ == account_ledger(self@, account_id, from, to),
    {
        let mut out: Vec<JournalLine> = Vec::new();
        let mut i: usize = 0;
        proof {
            assert(self@.take(0) =~= Seq::<JournalEntryView>::empty());
        }
        while i < self.entries.len()
            invariant
                i <= self.entries@.len() == self@.len(),
                out@ == account_ledger(self@.take(i as int), account_id, from, to),
            decreases self.entries.len() - i,
        {
            proof {
                assert(self@.take(i + 1).drop_last() =~= self@.take(i as int));
                assert(self@.take(i + 1).last() == self.entries@[i as int]@);
            }
            if from <= self.entries[i].entry_date && self.entries[i].entry_date <= to {
                let n: usize = self.entries[i].lines.len();
                let ghost start = out@;
                let ghost all = self.entries@[i as int].lines@;
                let mut j: usize = 0;
                proof {
                    assert(all.take(0) =~= Seq::<JournalLine>::empty());
                    assert(start + Seq::<JournalLine>::empty() =~= start);
                }
                while j < n
                    invariant
                        i < self.entries@.len(),
                        j <= n == all.len(),
                        all == self.entries@[i as int].lines@,
                        out@ == start + account_lines(all.take(j as int), account_id),
                    decreases n - j,
                {
                    proof {
                        assert(all.take(j + 1).drop_last() =~= all.take(j as int));
                        assert(all.take(j + 1).last() == all[j as int]);
                    }
                    let l: JournalLine = self.entries[i].lines[j];
                    if l.account_id == account_id {
                        out.push(l);
                        proof {
                            assert(out@ =~= start + account_lines(all.take(j + 1), account_id));
                        }
                    }
                    j = j + 1;
                }
                proof {
                    assert(all.take(n as int) =~= all);
                }
            }
            i = i + 1;
        }
        proof {
            assert(self@.take(i as int) =~= self@);
        }
        out
    }
}

/// Where every line's base amount is its debit less its credit, the total
/// is the debits less the credits.
proof fn lemma_total_is_debits_less_credits(
    base: CurrencyUnit,
    currency: Option<CurrencyUnit>,
    rate: Option<ExchangeRate>,
    lines: Seq<JournalLine>,
)
    requires
        forall|j: int|
            0 <= j < lines.len() ==> (#[trigger] lines[j]).base_amount == to_base(
                base,
                currency,
                rate,
                lines[j].debit as int,
            ) - to_base(base, currency, rate, lines[j].credit as int),
    ensures
        entry_total(lines) == debit_total(base, currency, rate, lines) - credit_total(
            base,
            currency,
            rate,
            lines,
        ),
    decreases lines.len(),
{
    if lines.len() > 0 {
        let last = lines[lines.len() - 1];
        assert(last.base_amount == to_base(base, currency, rate, last.debit as int) - to_base(
            base,
            currency,
            rate,
            last.credit as int,
        ));
        lemma_total_is_debits_less_credits(base, currency, rate, lines.drop_last());
    }
}

/// Every posted entry balances: its debits and its credits, each brought
/// into the base currency, come to the same sum, so that the base amounts of
/// its lines cancel.
pub proof fn lemma_posted_entries_balance(journal: Journal, i: int)
    requires
        journal.wf(),
        0 <= i < journal@.len(),
    ensures
        entry_total(journal@[i].lines) == 0,
        debit_total(
            journal.base(),
            journal@[i].currency,
            journal@[i].exchange_rate,
            journal@[i].lines,
        ) == credit_total(
            journal.base(),
            journal@[i].currency,
            journal@[i].exchange_rate,
            journal@[i].lines,
        ),
{
    assert(entry_wf(journal@, journal.base(), i));
    lemma_total_is_debits_less_credits(
        journal.base(),
        journal@[i].currency,
        journal@[i].exchange_rate,
        journal@[i].lines,
    );
}

/// A draft whose debits and credits differ in the base currency is never
/// posted: `rejection` names an error for it. Where the draft passes the
/// rules that are tried before the balance, the error is `Unbalanced` with
/// the difference.
pub proof fn lemma_unbalanced_is_rejected(
    accounts: Seq<ChartOfAccount>,
    base: CurrencyUnit,
    draft: CreateJournalEntryView,
)
    requires
        draft_total(base, draft.currency, draft.exchange_rate, draft.lines) != 0,
    ensures
        rejection(accounts, base, draft) is Some,
        (forall|i: int| !unknown_at(accounts, draft, i)) && (forall|i: int|
            !ambiguous_at(draft, i)) && convertible(base, draft.currency, draft.exchange_rate) && (
        forall|i: int| !oversized_at(base, draft, i)) ==> rejection(accounts, base, draft) == Some(
            ValidationError::Unbalanced {
                delta: draft_total(
                    base,
                    draft.currency,
                    draft.exchange_rate,
                    draft.lines,
                ) as i128,
            },
        ),
{
}

/// The mirror image of some lines has the opposite effect on every
/// account.
proof fn lemma_reversed_effect(lines: Seq<JournalLine>, entry_id: u64, account_id: u64)
    requires
        forall|j: int| 0 <= j < lines.len() ==> -i64::MAX <= (#[trigger] lines[j]).base_amount,
    ensures
        account_effect(reversed_lines(lines, entry_id), account_id) == -account_effect(
            lines,
            account_id,
        ),
    decreases lines.len(),
{
    if lines.len() > 0 {
        let mirrored = reversed_lines(lines, entry_id);
        assert(mirrored.drop_last() =~= reversed_lines(lines.drop_last(), entry_id));
        assert(-i64::MAX <= lines[lines.len() - 1].base_amount);
        lemma_reversed_effect(lines.drop_last(), entry_id, account_id);
        if lines.last().account_id == account_id {
            let kept = account_lines(lines.drop_last(), account_id);
            let kept_mirrored = account_lines(mirrored.drop_last(), account_id);
            assert(kept.push(lines.last()).drop_last() =~= kept);
            assert(kept_mirrored.push(mirrored.last()).drop_last() =~= kept_mirrored);
        }
    }
}

/// The ledger of an account reads nothing of an entry but its date and its
/// lines.
proof fn lemma_ledger_by_date_and_lines(
    a: Seq<JournalEntryView>,
    b: Seq<JournalEntryView>,
    account_id: u64,
    from: i32,
    to: i32,
)
    requires
        a.len() == b.len(),
        forall|i: int|
            0 <= i < a.len() ==> (#[trigger] a[i]).entry_date == b[i].entry_date && a[i].lines
                == b[i].lines,
    ensures
        account_ledger(a, account_id, from, to) == account_ledger(b, account_id, from, to),
    decreases a.len(),
{
    if a.len() > 0 {
        assert(a.last().entry_date == b.last().entry_date && a.last().lines == b.last().lines);
        lemma_ledger_by_date_and_lines(a.drop_last(), b.drop_last(), account_id, from, to);
    }
}

/// After a reversal the ledger of every account shows what it showed
/// before, followed by the mirrored lines where the reversal's date is in
/// the range asked for; and the original and its reversal together leave
/// every account's balance where it was.
pub proof fn lemma_reversal_cancels(
    before: Journal,
    after: Journal,
    entry_id: u64,
    date: i32,
    account_id: u64,
    from: i32,
    to: i32,
)
    requires
        before.wf(),
        entry_id < before@.len(),
        after@ == after_reversal(before@, entry_id, date),
    ensures
        account_effect(after@[entry_id as int].lines, account_id) + account_effect(
            after@.last().lines,
            account_id,
        ) == 0,
        after@[entry_id as int].lines == before@[entry_id as int].lines,
        account_ledger(after@, account_id, from, to) == account_ledger(
            before@,
            account_id,
            from,
            to,
        ) + if from <= date <= to {
            account_lines(after@.last().lines, account_id)
        } else {
            Seq::empty()
        },
{
    let original = before@[entry_id as int];
    assert(entry_wf(before@, before.base(), entry_id as int));
    lemma_reversed_effect(original.lines, before@.len() as u64, account_id);
    let marked = before@.update(entry_id as int, marked_reversed(original));
    assert(after@.drop_last() =~= marked);
    lemma_ledger_by_date_and_lines(marked, before@, account_id, from, to);
    let shown = account_ledger(before@, account_id, from, to);
    assert(shown + Seq::<JournalLine>::empty() =~= shown);
}

/// Nothing stays nothing in the base currency.
proof fn lemma_zero_to_base(
    base: CurrencyUnit,
    currency: Option<CurrencyUnit>,
    rate: Option<ExchangeRate>,
)
    requires
        rate matches Some(x) ==> x.valid(),
        convertible(base, currency, rate),
    ensures
        to_base(base, currency, rate, 0) == 0,
{
    match currency {
        None => {},
        Some(c) => {
            if c != base {
                let x = rate->Some_0;
                let p = crate::money::pow10((base.scale - c.scale) as nat);
                let q = crate::money::pow10((c.scale - base.scale) as nat);
                crate::money::lemma_pow10_positive((c.scale - base.scale) as nat);
                assert(0 * x.num() == 0);
                assert(0 * x.num() * p == 0);
                let d1 = x.den();
                let d2 = x.den() * q;
                assert(d2 > 0) by (nonlinear_arith)
                    requires
                        d2 == d1 * q,
                        d1 > 0,
                        q >= 1,
                ;
                assert(0int / d1 == 0 && 0int % d1 == 0) by (nonlinear_arith)
                    requires
                        d1 > 0,
                ;
                assert(0int / d2 == 0 && 0int % d2 == 0) by (nonlinear_arith)
                    requires
                        d2 > 0,
                ;
            }
        },
    }
}

/// Whether amounts of an entry in `currency` can be brought into `base`.
fn is_convertible(base: CurrencyUnit, currency: Option<CurrencyUnit>, rate: Option<ExchangeRate>) -> (r:
    bool)
    ensures
        r == convertible(base, currency, rate),
{
    match currency {
        None => true,
        Some(c) => c == base || (rate.is_some() && c.scale <= MAX_SCALE && base.scale
            <= MAX_SCALE),
    }
}

/// Whether the lines of a stored entry are sound and cancel.
fn lines_sound(base: CurrencyUnit, entry: &JournalEntry, position: u64) -> (r: bool)
    requires
        convertible(base, entry.currency, entry.exchange_rate),
    ensures
        r == (entry_total(entry.lines@) == 0 && forall|j: int|
            0 <= j < entry.lines@.len() ==> line_wf(
                base,
                entry.currency,
                entry.exchange_rate,
                position as int,
                #[trigger] entry.lines@[j],
            )),
{
    let n: usize = entry.lines.len();
    let mut total: i128 = 0;
    let mut j: usize = 0;
    proof {
        assert(entry.lines@.take(0) =~= Seq::<JournalLine>::empty());
        match entry.exchange_rate {
            Some(x) => {
                use_type_invariant(&x);
            },
            None => {},
        }
        lemma_zero_to_base(base, entry.currency, entry.exchange_rate);
    }
    while j < n
        invariant
            j <= n == entry.lines@.len(),
            convertible(base, entry.currency, entry.exchange_rate),
            to_base(base, entry.currency, entry.exchange_rate, 0) == 0,
            total == entry_total(entry.lines@.take(j as int)),
            -(j * 0x8000_0000_0000_0000) <= total <= j * 0x8000_0000_0000_0000,
            forall|k: int|
                0 <= k < j ==> line_wf(
                    base,
                    entry.currency,
                    entry.exchange_rate,
                    position as int,
                    #[trigger] entry.lines@[k],
                ),
        decreases n - j,
    {
        let l: JournalLine = entry.lines[j];
        if l.journal_entry_id != position || (l.debit != 0 && l.credit != 0) {
            return false;
        }
        let debit = amount_to_base(base, entry.currency, entry.exchange_rate, l.debit);
        let credit = amount_to_base(base, entry.currency, entry.exchange_rate, l.credit);
        match (debit, credit) {
            (Some(d), Some(c)) => {
                if l.base_amount as i128 != d as i128 - c as i128 {
                    return false;
                }
            },
            _ => {
                return false;
            },
        }
        proof {
            assert(entry.lines@.take(j + 1).drop_last() =~= entry.lines@.take(j as int));
            assert(entry.lines@.take(j + 1).last() == l);
            assert((j + 1) * 0x8000_0000_0000_0000 == j * 0x8000_0000_0000_0000
                + 0x8000_0000_0000_0000) by (nonlinear_arith);
            assert(j * 0x8000_0000_0000_0000 <= usize::MAX * 0x8000_0000_0000_0000)
                by (nonlinear_arith)
                requires
                    j <= usize::MAX,
            ;
        }
        total = total + l.base_amount as i128;
        j = j + 1;
    }
    proof {
        assert(entry.lines@.take(j as int) =~= entry.lines@);
    }
    total == 0
}

impl Journal {
    /// Takes stored entries back in as a journal, where they make a sound
    /// one: every entry has its position as its id, its company's count as
    /// its sequence number, two lines or more that cancel in the base
    /// currency, and lines whose base amounts are what their amounts
    /// convert to. Anything else is not a journal that this library has
    /// written, and is turned down.
    pub fn restore(base: CurrencyUnit, entries: Vec<JournalEntry>) -> (r: Option<Journal>)
        ensures
            r is Some <==> sound(base, entry_views(entries@)),
            r matches Some(journal) ==> journal.wf() && journal.base() == base && journal@
                == entry_views(entries@),
    {
        if base.scale > MAX_SCALE {
            return None;
        }
        let ghost all = entry_views(entries@);
        let mut counters: Vec<CompanyCount> = Vec::new();
        let mut i: usize = 0;
        proof {
            assert(all.take(0) =~= Seq::<JournalEntryView>::empty());
        }
        while i < entries.len()
            invariant
                i <= entries@.len(),
                all == entry_views(entries@),
                counted(counters@, all.take(i as int)),
                forall|k: int| 0 <= k < i ==> #[trigger] entry_wf(all, base, k),
            decreases entries.len() - i,
        {
            let e: &JournalEntry = &entries[i];
            proof {
                assert(all[i as int] == e@);
            }
            let before: u64 = counter_of(&counters, e.company_id, Ghost(all.take(i as int))).0;
            let linked: bool = match e.reversal_of {
                Some(k) => k < i as u64,
                None => true,
            };
            if e.id != i as u64 || !e.posted || e.sequence != before || e.lines.len() < 2
                || !linked || !is_convertible(base, e.currency, e.exchange_rate) {
                proof {
                    assert(!entry_wf(all, base, i as int));
                }
                return None;
            }
            if !lines_sound(base, e, i as u64) {
                proof {
                    assert(!entry_wf(all, base, i as int));
                }
                return None;
            }
            count_entry(&mut counters, e.company_id, Ghost(all.take(i as int)), Ghost(e@));
            proof {
                assert(all.take(i as int).push(e@) =~= all.take(i + 1));
            }
            i = i + 1;
        }
        proof {
            assert(all.take(i as int) =~= all);
        }
        let journal = Journal { base, entries, counters };
        proof {
            assert(journal@ =~= all);
        }
        Some(journal)
    }
}

} // verus!

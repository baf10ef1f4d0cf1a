//! From orders to the books: a fulfilled sales order or a received
//! purchase order moves stock and posts to the journal in one step, or
//! does nothing at all.

use crate::accounts::ChartOfAccount;
use crate::books::{draft_views, first_rejection, posted_all, Books};
use crate::error::{LedgerError, ValidationError};
use crate::journal::{CreateJournalEntry, CreateJournalEntryView, CreateJournalLine};
use crate::money::{CurrencyUnit, ExchangeRate};
use crate::stock::{
    batch_movements, batch_outcome, CreateStockMovement, MovementType, ReferenceType,
    StockMovement,
};
use crate::text::same_text;
use vstd::prelude::*;

verus! {

/// Where an order stands.
#[derive(Clone, Copy, Debug, PartialEq, Eq, Structural)]
pub enum OrderStatus {
    Pending,
    Fulfilled,
    Received,
}

/// A sales order. Prices are in `currency`, or in the base currency
/// where there is none.
#[derive(Clone, Copy, Debug, PartialEq, Eq)]
pub struct SalesOrder {
    pub id: u128,
    pub company_id: u128,
    pub customer_id: u128,
    pub order_date: i32,
    pub currency: Option<CurrencyUnit>,
    pub exchange_rate: Option<ExchangeRate>,
    pub status: OrderStatus,
}

/// One line of a sales order: so many units of a variant, out of a
/// warehouse, at a price each.
#[derive(Clone, Copy, Debug, PartialEq, Eq)]
pub struct SalesOrderLine {
    pub sales_order_id: u128,
    pub variant_id: u128,
    pub warehouse_id: u128,
    pub quantity: i64,
    pub unit_price: u64,
}

/// The accounts that a fulfilled sales order posts to.
#[derive(Clone, Copy, Debug, PartialEq, Eq)]
pub struct SalesPosting {
    pub cogs_account: u64,
    pub inventory_account: u64,
    pub receivable_account: u64,
    pub revenue_account: u64,
}

/// A purchase order. Unit costs are in the base currency.
#[derive(Clone, Copy, Debug, PartialEq, Eq)]
pub struct PurchaseOrder {
    pub id: u128,
    pub company_id: u128,
    pub vendor_id: u128,
    pub order_date: i32,
    pub status: OrderStatus,
}

/// One line of a purchase order: so many units of a variant, into a
/// warehouse, at a cost each.
#[derive(Clone, Copy, Debug, PartialEq, Eq)]
pub struct PurchaseOrderLine {
    pub purchase_order_id: u128,
    pub variant_id: u128,
    pub warehouse_id: u128,
    pub quantity: i64,
    pub unit_cost: u64,
}

/// The accounts that a received purchase order posts to.
#[derive(Clone, Copy, Debug, PartialEq, Eq)]
pub struct PurchasePosting {
    pub inventory_account: u64,
    pub payable_account: u64,
}

/// What an order has written to the books: the movements in the order of
/// its lines, and the ids of the journal entries.
#[derive(Debug, PartialEq, Eq)]
pub struct Settlement {
    pub movements: Vec<StockMovement>,
    pub entries: Vec<u64>,
}

/// What an order does to the books, as mathematical values: the stock log
/// after it, the movements it recorded, and the drafts it posts.
pub struct Effect {
    pub log: Seq<StockMovement>,
    pub moved: Seq<StockMovement>,
    pub entries: Seq<CreateJournalEntryView>,
}

/// The size of a quantity, whichever way it moves.
pub open spec fn size_of(quantity: i64) -> int {
    if quantity >= 0 {
        quantity as int
    } else {
        -quantity
    }
}

/// What a line counts for: its quantity, or nothing where that is not
/// above zero.
pub open spec fn ordered(quantity: i64) -> int {
    if quantity > 0 {
        quantity as int
    } else {
        0
    }
}

/// What the movements are worth: for each its size times its unit cost.
pub open spec fn moved_cost(moved: Seq<StockMovement>) -> int
    decreases moved.len(),
{
    if moved.len() == 0 {
        0
    } else {
        moved_cost(moved.drop_last()) + size_of(moved.last().quantity) * moved.last().unit_cost
    }
}

/// What the lines of a sales order come to: for each its quantity times
/// its price.
pub open spec fn sales_revenue(lines: Seq<SalesOrderLine>) -> int
    decreases lines.len(),
{
    if lines.len() == 0 {
        0
    } else {
        sales_revenue(lines.drop_last()) + ordered(lines.last().quantity)
            * lines.last().unit_price
    }
}

/// The movement that takes a sales line out of stock. A line of nothing,
/// or of less, asks for a movement of nothing.
pub open spec fn sale_draft(order: SalesOrder, line: SalesOrderLine) -> CreateStockMovement {
    CreateStockMovement {
        company_id: order.company_id,
        variant_id: line.variant_id,
        warehouse_id: line.warehouse_id,
        quantity: (-ordered(line.quantity)) as i64,
        movement_type: MovementType::Sale,
        reference_type: Some(ReferenceType::SalesOrder),
        reference_id: Some(order.id),
        unit_cost: None,
    }
}

/// The movement that brings a purchase line into stock.
pub open spec fn purchase_draft(order: PurchaseOrder, line: PurchaseOrderLine) -> CreateStockMovement {
    CreateStockMovement {
        company_id: order.company_id,
        variant_id: line.variant_id,
        warehouse_id: line.warehouse_id,
        quantity: ordered(line.quantity) as i64,
        movement_type: MovementType::Purchase,
        reference_type: Some(ReferenceType::PurchaseOrder),
        reference_id: Some(order.id),
        unit_cost: Some(line.unit_cost),
    }
}

/// An entry of two lines that moves `amount` from the credit of one
/// account to the debit of another.
pub open spec fn transfer(
    company_id: u128,
    entry_date: i32,
    currency: Option<CurrencyUnit>,
    exchange_rate: Option<ExchangeRate>,
    partner_id: Option<u128>,
    debit_account: u64,
    credit_account: u64,
    amount: u64,
) -> CreateJournalEntryView {
    CreateJournalEntryView {
        company_id,
        entry_date,
        currency,
        exchange_rate,
        lines: seq![
            CreateJournalLine {
                account_id: debit_account,
                partner_id,
                debit: amount,
                credit: 0,
                currency_amount: None,
            },
            CreateJournalLine {
                account_id: credit_account,
                partner_id,
                debit: 0,
                credit: amount,
                currency_amount: None,
            },
        ],
    }
}

/// What fulfilling a sales order does, or why it does nothing.
///
/// An order that is not pending is `NotPending`. Each line leaves stock,
/// in the order of the lines, under the rules of the stock ledger; the
/// first that is refused decides. The cost of what has left and the
/// revenue of the lines must each fit an amount, else `AmountOverflow`.
/// Then cost of goods sold is debited and inventory credited with the
/// cost, in the base currency, and the receivable is debited and revenue
/// credited with the revenue, in the order's currency; the first entry
/// that the journal turns down decides.
pub open spec fn sale_outcome(
    log: Seq<StockMovement>,
    accounts: Seq<ChartOfAccount>,
    base: CurrencyUnit,
    order: SalesOrder,
    lines: Seq<SalesOrderLine>,
    posting: SalesPosting,
    date: i32,
    moved_at: i64,
) -> Result<Effect, LedgerError> {
    let drafts = Seq::new(lines.len(), |i: int| sale_draft(order, lines[i]));
    let moved = batch_movements(log, drafts, moved_at);
    let entries = seq![
        transfer(
            order.company_id,
            date,
            None,
            None,
            None,
            posting.cogs_account,
            posting.inventory_account,
            moved_cost(moved) as u64,
        ),
        transfer(
            order.company_id,
            date,
            order.currency,
            order.exchange_rate,
            Some(order.customer_id),
            posting.receivable_account,
            posting.revenue_account,
            sales_revenue(lines) as u64,
        ),
    ];
    if order.status != OrderStatus::Pending {
        Err(LedgerError::Validation(ValidationError::NotPending))
    } else {
        match batch_outcome(log, drafts, moved_at) {
            Err(e) => Err(e),
            Ok(after) => if moved_cost(moved) > u64::MAX || sales_revenue(lines) > u64::MAX {
                Err(LedgerError::Validation(ValidationError::AmountOverflow))
            } else {
                match first_rejection(accounts, base, entries) {
                    Some(e) => Err(LedgerError::Validation(e)),
                    None => Ok(Effect { log: after, moved, entries }),
                }
            },
        }
    }
}

/// What receiving a purchase order does, or why it does nothing.
///
/// An order that is not pending is `NotPending`. Each line enters stock
/// at its unit cost, in the order of the lines, under the rules of the
/// stock ledger; the first that is refused decides. The cost of what has
/// come in must fit an amount, else `AmountOverflow`. Then inventory is
/// debited and the payable credited with it, in the base currency, unless
/// the journal turns the entry down.
pub open spec fn purchase_outcome(
    log: Seq<StockMovement>,
    accounts: Seq<ChartOfAccount>,
    base: CurrencyUnit,
    order: PurchaseOrder,
    lines: Seq<PurchaseOrderLine>,
    posting: PurchasePosting,
    date: i32,
    moved_at: i64,
) -> Result<Effect, LedgerError> {
    let drafts = Seq::new(lines.len(), |i: int| purchase_draft(order, lines[i]));
    let moved = batch_movements(log, drafts, moved_at);
    let entries = seq![
        transfer(
            order.company_id,
            date,
            None,
            None,
            Some(order.vendor_id),
            posting.inventory_account,
            posting.payable_account,
            moved_cost(moved) as u64,
        ),
    ];
    if order.status != OrderStatus::Pending {
        Err(LedgerError::Validation(ValidationError::NotPending))
    } else {
        match batch_outcome(log, drafts, moved_at) {
            Err(e) => Err(e),
            Ok(after) => if moved_cost(moved) > u64::MAX {
                Err(LedgerError::Validation(ValidationError::AmountOverflow))
            } else {
                match first_rejection(accounts, base, entries) {
                    Some(e) => Err(LedgerError::Validation(e)),
                    None => Ok(Effect { log: after, moved, entries }),
                }
            },
        }
    }
}

/// The worth of some movements is not below that of the first of them.
proof fn lemma_moved_cost_grows(moved: Seq<StockMovement>, k: int)
    requires
        0 <= k <= moved.len(),
    ensures
        0 <= moved_cost(moved.take(k)) <= moved_cost(moved),
    decreases moved.len() - k,
{
    if k < moved.len() {
        assert(moved.take(k + 1).drop_last() =~= moved.take(k));
        lemma_moved_cost_grows(moved, k + 1);
        let m = moved[k];
        assert(moved.take(k + 1).last() == m);
        assert(size_of(m.quantity) * m.unit_cost >= 0) by (nonlinear_arith)
            requires
                size_of(m.quantity) >= 0,
                m.unit_cost >= 0,
        ;
        lemma_moved_cost_not_negative(moved.take(k));
    } else {
        assert(moved.take(k) =~= moved);
        lemma_moved_cost_not_negative(moved);
    }
}

/// Movements are worth nothing or more.
proof fn lemma_moved_cost_not_negative(moved: Seq<StockMovement>)
    ensures
        0 <= moved_cost(moved),
    decreases moved.len(),
{
    if moved.len() > 0 {
        lemma_moved_cost_not_negative(moved.drop_last());
        let m = moved.last();
        assert(size_of(m.quantity) * m.unit_cost >= 0) by (nonlinear_arith)
            requires
                size_of(m.quantity) >= 0,
                m.unit_cost >= 0,
        ;
    }
}

/// The revenue of some lines is not below that of the first of them.
proof fn lemma_revenue_grows(lines: Seq<SalesOrderLine>, k: int)
    requires
        0 <= k <= lines.len(),
    ensures
        0 <= sales_revenue(lines.take(k)) <= sales_revenue(lines),
    decreases lines.len() - k,
{
    if k < lines.len() {
        assert(lines.take(k + 1).drop_last() =~= lines.take(k));
        lemma_revenue_grows(lines, k + 1);
        let l = lines[k];
        assert(lines.take(k + 1).last() == l);
        assert(ordered(l.quantity) * l.unit_price >= 0) by (nonlinear_arith)
            requires
                ordered(l.quantity) >= 0,
                l.unit_price >= 0,
        ;
        lemma_revenue_not_negative(lines.take(k));
    } else {
        assert(lines.take(k) =~= lines);
        lemma_revenue_not_negative(lines);
    }
}

/// Lines come to nothing or more.
proof fn lemma_revenue_not_negative(lines: Seq<SalesOrderLine>)
    ensures
        0 <= sales_revenue(lines),
    decreases lines.len(),
{
    if lines.len() > 0 {
        lemma_revenue_not_negative(lines.drop_last());
        let l = lines.last();
        assert(ordered(l.quantity) * l.unit_price >= 0) by (nonlinear_arith)
            requires
                ordered(l.quantity) >= 0,
                l.unit_price >= 0,
        ;
    }
}

/// The size of a quantity.
fn size(quantity: i64) -> (r: u64)
    ensures
        r == size_of(quantity),
        r <= 0x8000_0000_0000_0000,
{
    if quantity >= 0 {
        quantity as u64
    } else {
        let wide: i128 = -(quantity as i128);
        wide as u64
    }
}

/// What the movements are worth, where that fits an amount.
fn cost_of(moved: &Vec<StockMovement>) -> (r: Option<u64>)
    ensures
        match r {
            Some(v) => v == moved_cost(moved@),
            None => moved_cost(moved@) > u64::MAX,
        },
{
    let mut total: u128 = 0;
    let mut i: usize = 0;
    proof {
        assert(moved@.take(0) =~= Seq::<StockMovement>::empty());
    }
    while i < moved.len()
        invariant
            i <= moved@.len(),
            total == moved_cost(moved@.take(i as int)),
            total <= u64::MAX,
        decreases moved.len() - i,
    {
        let units: u128 = size(moved[i].quantity) as u128;
        let each: u128 = moved[i].unit_cost as u128;
        proof {
            assert(moved@.take(i + 1).drop_last() =~= moved@.take(i as int));
            assert(moved@.take(i + 1).last() == moved@[i as int]);
            assert(0 <= units * each <= 0x8000_0000_0000_0000 * 0xffff_ffff_ffff_ffff)
                by (nonlinear_arith)
                requires
                    0 <= units <= 0x8000_0000_0000_0000,
                    0 <= each <= 0xffff_ffff_ffff_ffff,
            ;
        }
        total = total + units * each;
        if total > 0xffff_ffff_ffff_ffffu128 {
            proof {
                lemma_moved_cost_grows(moved@, i + 1);
            }
            return None;
        }
        i = i + 1;
    }
    proof {
        assert(moved@.take(i as int) =~= moved@);
    }
    Some(total as u64)
}

/// What the lines of a sales order come to, where that fits an amount.
fn revenue_of(lines: &Vec<SalesOrderLine>) -> (r: Option<u64>)
    ensures
        match r {
            Some(v) => v == sales_revenue(lines@),
            None => sales_revenue(lines@) > u64::MAX,
        },
{
    let mut total: u128 = 0;
    let mut i: usize = 0;
    proof {
        assert(lines@.take(0) =~= Seq::<SalesOrderLine>::empty());
    }
    while i < lines.len()
        invariant
            i <= lines@.len(),
            total == sales_revenue(lines@.take(i as int)),
            total <= u64::MAX,
        decreases lines.len() - i,
    {
        let units: u128 = if lines[i].quantity > 0 {
            lines[i].quantity as u128
        } else {
            0
        };
        let each: u128 = lines[i].unit_price as u128;
        proof {
            assert(lines@.take(i + 1).drop_last() =~= lines@.take(i as int));
            assert(lines@.take(i + 1).last() == lines@[i as int]);
            assert(0 <= units * each <= 0x8000_0000_0000_0000 * 0xffff_ffff_ffff_ffff)
                by (nonlinear_arith)
                requires
                    0 <= units <= 0x8000_0000_0000_0000,
                    0 <= each <= 0xffff_ffff_ffff_ffff,
            ;
        }
        total = total + units * each;
        if total > 0xffff_ffff_ffff_ffffu128 {
            proof {
                lemma_revenue_grows(lines@, i + 1);
            }
            return None;
        }
        i = i + 1;
    }
    proof {
        assert(lines@.take(i as int) =~= lines@);
    }
    Some(total as u64)
}

/// An entry of two lines that moves `amount` from the credit of one
/// account to the debit of another.
fn transfer_entry(
    company_id: u128,
    entry_date: i32,
    currency: Option<CurrencyUnit>,
    exchange_rate: Option<ExchangeRate>,
    partner_id: Option<u128>,
    debit_account: u64,
    credit_account: u64,
    amount: u64,
) -> (r: CreateJournalEntry)
    ensures
        r@ == transfer(
            company_id,
            entry_date,
            currency,
            exchange_rate,
            partner_id,
            debit_account,
            credit_account,
            amount,
        ),
{
    let mut lines: Vec<CreateJournalLine> = Vec::new();
    lines.push(
        CreateJournalLine {
            account_id: debit_account,
            partner_id,
            debit: amount,
            credit: 0,
            currency_amount: None,
        },
    );
    lines.push(
        CreateJournalLine {
            account_id: credit_account,
            partner_id,
            debit: 0,
            credit: amount,
            currency_amount: None,
        },
    );
    let entry = CreateJournalEntry { company_id, entry_date, currency, exchange_rate, lines };
    proof {
        assert(entry@.lines =~= transfer(
            company_id,
            entry_date,
            currency,
            exchange_rate,
            partner_id,
            debit_account,
            credit_account,
            amount,
        ).lines);
    }
    entry
}

/// A copy of some movements.
fn copy_of(moved: &Vec<StockMovement>) -> (r: Vec<StockMovement>)
    ensures
        r@ == moved@,
{
    let mut out: Vec<StockMovement> = Vec::new();
    let mut i: usize = 0;
    while i < moved.len()
        invariant
            i <= moved@.len(),
            out@ == moved@.take(i as int),
        decreases moved.len() - i,
    {
        out.push(moved[i]);
        proof {
            assert(out@ =~= moved@.take(i + 1));
        }
        i = i + 1;
    }
    proof {
        assert(moved@.take(i as int) =~= moved@);
    }
    out
}

impl Books {
    /// Fulfils a pending sales order: every line leaves stock as of
    /// `moved_at`, and the journal takes the cost of goods sold and the
    /// revenue under `date`. The order is then fulfilled.
    ///
    /// Where `sale_outcome` names an error, that error is returned, and
    /// neither the books nor the order have changed.
    pub fn fulfil_sales_order(
        &mut self,
        order: &mut SalesOrder,
        lines: &Vec<SalesOrderLine>,
        posting: &SalesPosting,
        date: i32,
        moved_at: i64,
    ) -> (r: Result<Settlement, LedgerError>)
        requires
            old(self).wf(),
        ensures
            final(self).wf(),
            final(self).accounts@ == old(self).accounts@,
            final(self).journal.base() == old(self).journal.base(),
            match sale_outcome(
                old(self).stock@,
                old(self).accounts@,
                old(self).journal.base(),
                *old(order),
                lines@,
                *posting,
                date,
                moved_at,
            ) {
                Err(e) => (r matches Err(x) && x == e) && *final(order) == *old(order) && final(self).journal@ == old(self).journal@ && final(self).stock@ == old(self).stock@
                    && final(self).stock.projection() == old(self).stock.projection(),
                Ok(effect) => (r matches Ok(done) && done.movements@ == effect.moved
                    && done.entries@.len() == 2 && done.entries@[0] == old(self).journal@.len()
                    && done.entries@[1] == old(self).journal@.len() + 1) && *final(order) == (
                SalesOrder { status: OrderStatus::Fulfilled, ..*old(order) }) && final(self).journal@ == posted_all(
                    old(self).journal@,
                    old(self).journal.base(),
                    effect.entries,
                ) && final(self).stock@ == effect.log,
            },
    {
        match order.status {
            OrderStatus::Pending => {},
            _ => {
                return Err(LedgerError::Validation(ValidationError::NotPending));
            },
        }
        let mut drafts: Vec<CreateStockMovement> = Vec::new();
        let mut i: usize = 0;
        while i < lines.len()
            invariant
                i <= lines@.len(),
                *order == *old(order),
                drafts@.len() == i,
                forall|k: int| 0 <= k < i ==> #[trigger] drafts@[k] == sale_draft(*order, lines@[k]),
            decreases lines.len() - i,
        {
            let quantity: i64 = if lines[i].quantity > 0 {
                -lines[i].quantity
            } else {
                0
            };
            drafts.push(
                CreateStockMovement {
                    company_id: order.company_id,
                    variant_id: lines[i].variant_id,
                    warehouse_id: lines[i].warehouse_id,
                    quantity,
                    movement_type: MovementType::Sale,
                    reference_type: Some(ReferenceType::SalesOrder),
                    reference_id: Some(order.id),
                    unit_cost: None,
                },
            );
            i = i + 1;
        }
        proof {
            assert(drafts@ =~= Seq::new(lines@.len(), |k: int| sale_draft(*order, lines@[k])));
        }
        let batch = match self.stock.record_all(&drafts, moved_at) {
            Ok(batch) => batch,
            Err(e) => {
                return Err(e);
            },
        };
        let cost: Option<u64> = cost_of(batch.movements());
        let revenue: Option<u64> = revenue_of(lines);
        let (cost, revenue): (u64, u64) = match (cost, revenue) {
            (Some(c), Some(v)) => (c, v),
            _ => {
                self.stock.revert(batch);
                return Err(LedgerError::Validation(ValidationError::AmountOverflow));
            },
        };
        let mut entries: Vec<CreateJournalEntry> = Vec::new();
        entries.push(
            transfer_entry(
                order.company_id,
                date,
                None,
                None,
                None,
                posting.cogs_account,
                posting.inventory_account,
                cost,
            ),
        );
        entries.push(
            transfer_entry(
                order.company_id,
                date,
                order.currency,
                order.exchange_rate,
                Some(order.customer_id),
                posting.receivable_account,
                posting.revenue_account,
                revenue,
            ),
        );
        proof {
            let effect_entries = seq![
                transfer(
                    order.company_id,
                    date,
                    None,
                    None,
                    None,
                    posting.cogs_account,
                    posting.inventory_account,
                    cost,
                ),
                transfer(
                    order.company_id,
                    date,
                    order.currency,
                    order.exchange_rate,
                    Some(order.customer_id),
                    posting.receivable_account,
                    posting.revenue_account,
                    revenue,
                ),
            ];
            assert(draft_views(entries@) =~= effect_entries);
        }
        let movements: Vec<StockMovement> = copy_of(batch.movements());
        let ids: Vec<u64> = match self.post_all_or_revert(batch, &entries) {
            Ok(ids) => ids,
            Err(e) => {
                return Err(e);
            },
        };
        order.status = OrderStatus::Fulfilled;
        Ok(Settlement { movements, entries: ids })
    }

    /// Receives a pending purchase order: every line enters stock as of
    /// `moved_at` at its unit cost, and the journal takes the inventory and
    /// the payable under `date`. The order is then received.
    ///
    /// Where `purchase_outcome` names an error, that error is returned, and
    /// neither the books nor the order have changed.
    pub fn receive_purchase_order(
        &mut self,
        order: &mut PurchaseOrder,
        lines: &Vec<PurchaseOrderLine>,
        posting: &PurchasePosting,
        date: i32,
        moved_at: i64,
    ) -> (r: Result<Settlement, LedgerError>)
        requires
            old(self).wf(),
        ensures
            final(self).wf(),
            final(self).accounts@ == old(self).accounts@,
            final(self).journal.base() == old(self).journal.base(),
            match purchase_outcome(
                old(self).stock@,
                old(self).accounts@,
                old(self).journal.base(),
                *old(order),
                lines@,
                *posting,
                date,
                moved_at,
            ) {
                Err(e) => (r matches Err(x) && x == e) && *final(order) == *old(order) && final(self).journal@ == old(self).journal@ && final(self).stock@ == old(self).stock@
                    && final(self).stock.projection() == old(self).stock.projection(),
                Ok(effect) => (r matches Ok(done) && done.movements@ == effect.moved
                    && done.entries@.len() == 1 && done.entries@[0] == old(self).journal@.len())
                    && *final(order) == (PurchaseOrder {
                    status: OrderStatus::Received,
                    ..*old(order)
                }) && final(self).journal@ == posted_all(
                    old(self).journal@,
                    old(self).journal.base(),
                    effect.entries,
                ) && final(self).stock@ == effect.log,
            },
    {
        match order.status {
            OrderStatus::Pending => {},
            _ => {
                return Err(LedgerError::Validation(ValidationError::NotPending));
            },
        }
        let mut drafts: Vec<CreateStockMovement> = Vec::new();
        let mut i: usize = 0;
        while i < lines.len()
            invariant
                i <= lines@.len(),
                *order == *old(order),
                drafts@.len() == i,
                forall|k: int|
                    0 <= k < i ==> #[trigger] drafts@[k] == purchase_draft(*order, lines@[k]),
            decreases lines.len() - i,
        {
            let quantity: i64 = if lines[i].quantity > 0 {
                lines[i].quantity
            } else {
                0
            };
            drafts.push(
                CreateStockMovement {
                    company_id: order.company_id,
                    variant_id: lines[i].variant_id,
                    warehouse_id: lines[i].warehouse_id,
                    quantity,
                    movement_type: MovementType::Purchase,
                    reference_type: Some(ReferenceType::PurchaseOrder),
                    reference_id: Some(order.id),
                    unit_cost: Some(lines[i].unit_cost),
                },
            );
            i = i + 1;
        }
        proof {
            assert(drafts@ =~= Seq::new(lines@.len(), |k: int| purchase_draft(*order, lines@[k])));
        }
        let batch = match self.stock.record_all(&drafts, moved_at) {
            Ok(batch) => batch,
            Err(e) => {
                return Err(e);
            },
        };
        let cost: u64 = match cost_of(batch.movements()) {
            Some(c) => c,
            None => {
                self.stock.revert(batch);
                return Err(LedgerError::Validation(ValidationError::AmountOverflow));
            },
        };
        let mut entries: Vec<CreateJournalEntry> = Vec::new();
        entries.push(
            transfer_entry(
                order.company_id,
                date,
                None,
                None,
                Some(order.vendor_id),
                posting.inventory_account,
                posting.payable_account,
                cost,
            ),
        );
        proof {
            let effect_entries = seq![
                transfer(
                    order.company_id,
                    date,
                    None,
                    None,
                    Some(order.vendor_id),
                    posting.inventory_account,
                    posting.payable_account,
                    cost,
                ),
            ];
            assert(draft_views(entries@) =~= effect_entries);
        }
        let movements: Vec<StockMovement> = copy_of(batch.movements());
        let ids: Vec<u64> = match self.post_all_or_revert(batch, &entries) {
            Ok(ids) => ids,
            Err(e) => {
                return Err(e);
            },
        };
        order.status = OrderStatus::Received;
        Ok(Settlement { movements, entries: ids })
    }
}

impl OrderStatus {
    /// The name under which the database stores this state of an order.
    pub open spec fn spec_name(self) -> Seq<char> {
        match self {
            OrderStatus::Pending => "pending"@,
            OrderStatus::Fulfilled => "fulfilled"@,
            OrderStatus::Received => "received"@,
        }
    }

    /// The name under which the database stores this state of an order.
    pub fn name(self) -> (r: &'static str)
        ensures
            r@ == self.spec_name(),
    {
        match self {
            OrderStatus::Pending => "pending",
            OrderStatus::Fulfilled => "fulfilled",
            OrderStatus::Received => "received",
        }
    }

    /// The state of an order that the database stores under `name`, if it is one.
    pub fn from_name(name: &str) -> (r: Option<OrderStatus>)
        ensures
            match r {
                Some(t) => t.spec_name() == name@,
                None => forall|t: OrderStatus| t.spec_name() != name@,
            },
    {
        if same_text(name, "pending") {
            Some(OrderStatus::Pending)
        } else if same_text(name, "fulfilled") {
            Some(OrderStatus::Fulfilled)
        } else if same_text(name, "received") {
            Some(OrderStatus::Received)
        } else {
            None
        }
    }

    /// No two of the names are the same.
    pub proof fn lemma_names_differ(a: OrderStatus, b: OrderStatus)
        requires
            a != b,
        ensures
            a.spec_name() != b.spec_name(),
    {
        reveal_strlit("pending");
        reveal_strlit("fulfilled");
        reveal_strlit("received");
        let x = a.spec_name();
        let y = b.spec_name();
        if x.len() == y.len() {
            assert(x[0] != y[0] || x[1] != y[1]);
        }
    }
}

} // verus!

use ledger_core::accounts::{AccountType, CreateChartOfAccount};
use ledger_core::books::Books;
use ledger_core::error::{ConsistencyError, LedgerError, ValidationError};
use ledger_core::journal::CreateJournalLine;
use ledger_core::money::{CurrencyUnit, ExchangeRate};
use ledger_core::orders::{
    OrderStatus, PurchaseOrder, PurchaseOrderLine, PurchasePosting, SalesOrder, SalesOrderLine,
    SalesPosting,
};
use ledger_core::stock::{Balance, MovementType, ReferenceType};

const COMPANY: u128 = 7;
const INVENTORY: u64 = 0;
const PAYABLE: u64 = 1;
const COGS: u64 = 2;
const RECEIVABLE: u64 = 3;
const REVENUE: u64 = 4;
const V: u128 = 11;
const W: u128 = 22;

fn usd() -> CurrencyUnit {
    CurrencyUnit { id: 1, scale: 2 }
}

fn books() -> Books {
    let mut books = Books::new(usd()).unwrap();
    for (code, kind) in [
        ("1200", AccountType::Asset),
        ("2000", AccountType::Liability),
        ("5000", AccountType::Expense),
        ("1100", AccountType::Asset),
        ("4000", AccountType::Revenue),
    ] {
        books
            .accounts
            .create_account(CreateChartOfAccount {
                company_id: COMPANY,
                code: code.to_string(),
                name: code.to_string(),
                account_type: kind,
            })
            .unwrap();
    }
    books
}

fn purchase() -> PurchaseOrder {
    PurchaseOrder { id: 900, company_id: COMPANY, vendor_id: 55, order_date: 10, status: OrderStatus::Pending }
}

fn purchase_line(quantity: i64, unit_cost: u64) -> PurchaseOrderLine {
    PurchaseOrderLine { purchase_order_id: 900, variant_id: V, warehouse_id: W, quantity, unit_cost }
}

fn purchase_posting() -> PurchasePosting {
    PurchasePosting { inventory_account: INVENTORY, payable_account: PAYABLE }
}

fn sale() -> SalesOrder {
    SalesOrder {
        id: 800,
        company_id: COMPANY,
        customer_id: 66,
        order_date: 12,
        currency: None,
        exchange_rate: None,
        status: OrderStatus::Pending,
    }
}

fn sale_line(quantity: i64, unit_price: u64) -> SalesOrderLine {
    SalesOrderLine { sales_order_id: 800, variant_id: V, warehouse_id: W, quantity, unit_price }
}

fn sale_posting() -> SalesPosting {
    SalesPosting {
        cogs_account: COGS,
        inventory_account: INVENTORY,
        receivable_account: RECEIVABLE,
        revenue_account: REVENUE,
    }
}

fn stocked() -> Books {
    let mut books = books();
    let mut order = purchase();
    books
        .receive_purchase_order(
            &mut order,
            &vec![purchase_line(10, 500), purchase_line(10, 700)],
            &purchase_posting(),
            10,
            1000,
        )
        .unwrap();
    books
}

fn effect(books: &Books, account: u64) -> i128 {
    books
        .get_account_ledger(account, i32::MIN, i32::MAX)
        .iter()
        .map(|l| l.base_amount as i128)
        .sum()
}

#[test]
fn empty_books_need_a_base_scale_in_range() {
    assert_eq!(Books::new(CurrencyUnit { id: 1, scale: 10 }).err(), Some(ValidationError::InvalidScale));
    let books = Books::new(usd()).unwrap();
    assert_eq!(books.journal.len(), 0);
    assert_eq!(books.stock.len(), 0);
    assert_eq!(books.accounts.len(), 0);
}

#[test]
fn a_receipt_brings_stock_in_and_posts_the_payable() {
    let mut books = books();
    let mut order = purchase();
    let done = books
        .receive_purchase_order(
            &mut order,
            &vec![purchase_line(10, 500), purchase_line(10, 700)],
            &purchase_posting(),
            10,
            1000,
        )
        .unwrap();
    assert_eq!(order.status, OrderStatus::Received);
    assert_eq!(done.entries, vec![0]);
    assert_eq!(done.movements.len(), 2);
    assert_eq!(done.movements[0].quantity, 10);
    assert_eq!(done.movements[0].unit_cost, 500);
    assert_eq!(done.movements[0].movement_type, MovementType::Purchase);
    assert_eq!(done.movements[0].reference_type, Some(ReferenceType::PurchaseOrder));
    assert_eq!(done.movements[0].reference_id, Some(900));
    assert_eq!(done.movements[1].id, 1);
    assert_eq!(books.get_balance(V, W), Balance { quantity: 20, weighted_avg_cost: 600 });
    assert_eq!(effect(&books, INVENTORY), 12_000);
    assert_eq!(effect(&books, PAYABLE), -12_000);
    let entry = books.journal.entry(0).unwrap();
    assert_eq!(entry.entry_date, 10);
    assert_eq!(entry.lines[1].partner_id, Some(55));
}

#[test]
fn a_sale_takes_stock_out_and_posts_cost_and_revenue() {
    let mut books = stocked();
    let mut order = sale();
    let done = books
        .fulfil_sales_order(
            &mut order,
            &vec![sale_line(4, 1000), sale_line(1, 1500)],
            &sale_posting(),
            12,
            2000,
        )
        .unwrap();
    assert_eq!(order.status, OrderStatus::Fulfilled);
    assert_eq!(done.entries, vec![1, 2]);
    assert_eq!(done.movements.len(), 2);
    assert_eq!(done.movements[0].quantity, -4);
    assert_eq!(done.movements[0].unit_cost, 600);
    assert_eq!(done.movements[0].movement_type, MovementType::Sale);
    assert_eq!(done.movements[0].reference_id, Some(800));
    assert_eq!(done.movements[1].quantity, -1);
    assert_eq!(books.get_balance(V, W), Balance { quantity: 15, weighted_avg_cost: 600 });
    assert_eq!(effect(&books, COGS), 3_000);
    assert_eq!(effect(&books, INVENTORY), 12_000 - 3_000);
    assert_eq!(effect(&books, RECEIVABLE), 5_500);
    assert_eq!(effect(&books, REVENUE), -5_500);
    assert_eq!(books.journal.entry(2).unwrap().lines[0].partner_id, Some(66));
    assert_eq!(books.journal.entry(1).unwrap().lines[0].partner_id, None);
}

#[test]
fn a_sale_in_a_foreign_currency_books_revenue_at_the_rate() {
    let mut books = stocked();
    let mut order = sale();
    order.currency = Some(CurrencyUnit { id: 2, scale: 0 });
    order.exchange_rate = ExchangeRate::new(67, 10_000);
    books.fulfil_sales_order(&mut order, &vec![sale_line(2, 1000)], &sale_posting(), 12, 2000).unwrap();
    // 2000 yen at 0.0067 are 13.40
    assert_eq!(effect(&books, RECEIVABLE), 1_340);
    assert_eq!(effect(&books, COGS), 1_200);
}

#[test]
fn a_sale_without_stock_changes_nothing() {
    let mut books = stocked();
    let mut order = sale();
    let r = books.fulfil_sales_order(
        &mut order,
        &vec![sale_line(15, 1000), sale_line(6, 1000)],
        &sale_posting(),
        12,
        2000,
    );
    assert_eq!(
        r.err(),
        Some(LedgerError::Consistency(ConsistencyError::InsufficientStock {
            available: 5,
            requested: 6
        }))
    );
    assert_eq!(order.status, OrderStatus::Pending);
    assert_eq!(books.stock.len(), 2);
    assert_eq!(books.journal.len(), 1);
    assert_eq!(books.get_balance(V, W), Balance { quantity: 20, weighted_avg_cost: 600 });
    assert_eq!(books.stock.current_balance(V, W), Balance { quantity: 20, weighted_avg_cost: 600 });
}

#[test]
fn a_sale_that_the_journal_turns_down_puts_the_stock_back() {
    let mut books = stocked();
    books.accounts.deactivate(REVENUE).unwrap();
    let mut order = sale();
    let r = books.fulfil_sales_order(&mut order, &vec![sale_line(4, 1000)], &sale_posting(), 12, 2000);
    assert_eq!(
        r.err(),
        Some(LedgerError::Validation(ValidationError::UnknownAccount { account_id: REVENUE }))
    );
    assert_eq!(order.status, OrderStatus::Pending);
    assert_eq!(books.stock.len(), 2);
    assert_eq!(books.journal.len(), 1);
    assert_eq!(books.get_balance(V, W), Balance { quantity: 20, weighted_avg_cost: 600 });
    assert_eq!(effect(&books, COGS), 0);
}

#[test]
fn a_sale_line_of_nothing_is_refused() {
    let mut books = stocked();
    let mut order = sale();
    let r = books.fulfil_sales_order(
        &mut order,
        &vec![sale_line(1, 1000), sale_line(0, 1000)],
        &sale_posting(),
        12,
        2000,
    );
    assert_eq!(r.err(), Some(LedgerError::Validation(ValidationError::ZeroQuantity)));
    let r = books.fulfil_sales_order(&mut order, &vec![sale_line(-3, 1000)], &sale_posting(), 12, 2000);
    assert_eq!(r.err(), Some(LedgerError::Validation(ValidationError::ZeroQuantity)));
    assert_eq!(books.stock.len(), 2);
}

#[test]
fn an_order_is_settled_once() {
    let mut books = stocked();
    let mut order = sale();
    books.fulfil_sales_order(&mut order, &vec![sale_line(1, 1000)], &sale_posting(), 12, 2000).unwrap();
    let r = books.fulfil_sales_order(&mut order, &vec![sale_line(1, 1000)], &sale_posting(), 12, 2000);
    assert_eq!(r.err(), Some(LedgerError::Validation(ValidationError::NotPending)));
    assert_eq!(books.stock.len(), 3);
    let mut received = purchase();
    received.status = OrderStatus::Received;
    let r = books.receive_purchase_order(&mut received, &vec![purchase_line(1, 1)], &purchase_posting(), 1, 1);
    assert_eq!(r.err(), Some(LedgerError::Validation(ValidationError::NotPending)));
}

#[test]
fn a_receipt_that_the_journal_turns_down_puts_the_stock_back() {
    let mut books = books();
    let mut order = purchase();
    let posting = PurchasePosting { inventory_account: INVENTORY, payable_account: 77 };
    let r = books.receive_purchase_order(&mut order, &vec![purchase_line(10, 500)], &posting, 10, 1000);
    assert_eq!(
        r.err(),
        Some(LedgerError::Validation(ValidationError::UnknownAccount { account_id: 77 }))
    );
    assert_eq!(order.status, OrderStatus::Pending);
    assert_eq!(books.stock.len(), 0);
    assert_eq!(books.journal.len(), 0);
    assert_eq!(books.get_balance(V, W), Balance { quantity: 0, weighted_avg_cost: 0 });
}

#[test]
fn a_receipt_too_large_to_book_is_overflow() {
    let mut books = books();
    let mut order = purchase();
    let r = books.receive_purchase_order(
        &mut order,
        &vec![purchase_line(i64::MAX, u64::MAX)],
        &purchase_posting(),
        10,
        1000,
    );
    assert_eq!(r.err(), Some(LedgerError::Validation(ValidationError::AmountOverflow)));
    assert_eq!(books.stock.len(), 0);
    let r = books.receive_purchase_order(
        &mut order,
        &vec![purchase_line(2, u64::MAX / 2)],
        &purchase_posting(),
        10,
        1000,
    );
    assert_eq!(r.err(), Some(LedgerError::Validation(ValidationError::AmountOverflow)));
    assert_eq!(books.stock.len(), 0);
    assert_eq!(books.journal.len(), 0);
}

#[test]
fn a_receipt_of_goods_without_cost_posts_an_entry_of_nothing() {
    let mut books = books();
    let mut order = purchase();
    let done = books
        .receive_purchase_order(&mut order, &vec![purchase_line(3, 0)], &purchase_posting(), 10, 1000)
        .unwrap();
    assert_eq!(done.entries, vec![0]);
    assert_eq!(books.get_balance(V, W), Balance { quantity: 3, weighted_avg_cost: 0 });
    assert_eq!(effect(&books, INVENTORY), 0);
}

#[test]
fn the_books_post_and_reverse_journal_entries() {
    let mut books = books();
    let lines = vec![
        CreateJournalLine { account_id: INVENTORY, partner_id: None, debit: 100, credit: 0, currency_amount: None },
        CreateJournalLine { account_id: PAYABLE, partner_id: Some(9), debit: 0, credit: 100, currency_amount: None },
    ];
    assert_eq!(books.post_journal_entry(COMPANY, 10, None, None, lines), Ok(0));
    let ledger = books.get_account_ledger(INVENTORY, 0, 20);
    assert_eq!(ledger.len(), 1);
    assert_eq!(ledger[0].base_amount, 100);
    assert_eq!(books.reverse_journal_entry(0, 15), Ok(1));
    assert_eq!(effect(&books, INVENTORY), 0);
    assert_eq!(effect(&books, PAYABLE), 0);
    assert_eq!(
        books.reverse_journal_entry(0, 16),
        Err(LedgerError::Validation(ValidationError::AlreadyReversed))
    );
    assert_eq!(
        books.reverse_journal_entry(9, 16),
        Err(LedgerError::Validation(ValidationError::NotFound))
    );
    let bad = vec![
        CreateJournalLine { account_id: INVENTORY, partner_id: None, debit: 100, credit: 0, currency_amount: None },
    ];
    assert_eq!(
        books.post_journal_entry(COMPANY, 10, None, None, bad),
        Err(LedgerError::Validation(ValidationError::Unbalanced { delta: 100 }))
    );
}

#[test]
fn the_books_record_stock_movements() {
    let mut books = books();
    let r = books.record_stock_movement(COMPANY, V, W, -5, MovementType::Sale, None, None, 100);
    assert_eq!(
        r,
        Err(LedgerError::Consistency(ConsistencyError::InsufficientStock {
            available: 0,
            requested: 5
        }))
    );
    let r = books.record_stock_movement(
        COMPANY,
        V,
        W,
        10,
        MovementType::Purchase,
        Some(5),
        Some((ReferenceType::PurchaseOrder, 31)),
        100,
    );
    assert_eq!(r, Ok(0));
    let moved = books.stock.movement(0).unwrap();
    assert_eq!(moved.reference_type, Some(ReferenceType::PurchaseOrder));
    assert_eq!(moved.reference_id, Some(31));
    assert_eq!(moved.company_id, COMPANY);
    assert_eq!(books.get_balance(V, W), Balance { quantity: 10, weighted_avg_cost: 5 });
}

#[test]
fn order_states_go_by_their_stored_names() {
    for (state, name) in [
        (OrderStatus::Pending, "pending"),
        (OrderStatus::Fulfilled, "fulfilled"),
        (OrderStatus::Received, "received"),
    ] {
        assert_eq!(state.name(), name);
        assert_eq!(OrderStatus::from_name(name), Some(state));
    }
    assert_eq!(OrderStatus::from_name("done"), None);
}

use ledger_core::error::{ConsistencyError, LedgerError, ValidationError};
use ledger_core::stock::{
    Balance, CreateStockMovement, Inventory, MovementType, ReferenceType, StockMovement,
};

const V: u128 = 11;
const W: u128 = 22;

fn inbound(quantity: i64, unit_cost: u64) -> CreateStockMovement {
    CreateStockMovement {
        company_id: 1,
        variant_id: V,
        warehouse_id: W,
        quantity,
        movement_type: MovementType::Purchase,
        reference_type: None,
        reference_id: None,
        unit_cost: Some(unit_cost),
    }
}

fn outbound(quantity: i64) -> CreateStockMovement {
    CreateStockMovement {
        company_id: 1,
        variant_id: V,
        warehouse_id: W,
        quantity: -quantity,
        movement_type: MovementType::Sale,
        reference_type: Some(ReferenceType::SalesOrder),
        reference_id: Some(5),
        unit_cost: None,
    }
}

fn balance(quantity: i64, weighted_avg_cost: u64) -> Balance {
    Balance { quantity, weighted_avg_cost }
}

fn log(inventory: &Inventory) -> Vec<StockMovement> {
    (0..inventory.len()).map(|i| inventory.movement(i).unwrap()).collect()
}

#[test]
fn an_untouched_cell_is_empty() {
    let inventory = Inventory::new();
    assert_eq!(inventory.len(), 0);
    assert_eq!(inventory.get_balance(V, W), balance(0, 0));
    assert_eq!(inventory.current_balance(V, W), balance(0, 0));
    assert_eq!(inventory.movement(0), None);
}

#[test]
fn weighted_average_of_two_receipts() {
    let mut inventory = Inventory::new();
    assert_eq!(inventory.record_movement(&inbound(10, 5), 100), Ok(0));
    assert_eq!(inventory.get_balance(V, W), balance(10, 5));
    assert_eq!(inventory.record_movement(&inbound(10, 7), 200), Ok(1));
    assert_eq!(inventory.get_balance(V, W), balance(20, 6));
}

#[test]
fn the_average_is_rounded_half_to_even() {
    let mut inventory = Inventory::new();
    inventory.record_movement(&inbound(1, 2), 1).unwrap();
    inventory.record_movement(&inbound(1, 3), 2).unwrap();
    // (2 + 3) / 2 = 2.5 goes to 2
    assert_eq!(inventory.get_balance(V, W), balance(2, 2));
    let mut other = Inventory::new();
    other.record_movement(&inbound(1, 3), 1).unwrap();
    other.record_movement(&inbound(1, 4), 2).unwrap();
    // (3 + 4) / 2 = 3.5 goes to 4
    assert_eq!(other.get_balance(V, W), balance(2, 4));
    let mut third = Inventory::new();
    third.record_movement(&inbound(2, 10), 1).unwrap();
    third.record_movement(&inbound(1, 11), 2).unwrap();
    // 31 / 3 = 10.33 goes to 10
    assert_eq!(third.get_balance(V, W), balance(3, 10));
}

#[test]
fn taking_from_an_empty_cell_is_insufficient_stock() {
    let mut inventory = Inventory::new();
    let r = inventory.record_movement(&outbound(5), 100);
    assert_eq!(
        r,
        Err(LedgerError::Consistency(ConsistencyError::InsufficientStock {
            available: 0,
            requested: 5
        }))
    );
    assert_eq!(inventory.len(), 0);
    assert_eq!(inventory.get_balance(V, W), balance(0, 0));
}

#[test]
fn an_overdraw_is_refused_and_leaves_the_balance() {
    let mut inventory = Inventory::new();
    inventory.record_movement(&inbound(10, 5), 100).unwrap();
    let r = inventory.record_movement(&outbound(11), 200);
    assert_eq!(
        r,
        Err(LedgerError::Consistency(ConsistencyError::InsufficientStock {
            available: 10,
            requested: 11
        }))
    );
    assert_eq!(inventory.get_balance(V, W), balance(10, 5));
    assert_eq!(inventory.current_balance(V, W), balance(10, 5));
    assert_eq!(inventory.len(), 1);
}

#[test]
fn what_goes_out_is_costed_at_the_average_and_leaves_it() {
    let mut inventory = Inventory::new();
    inventory.record_movement(&inbound(10, 5), 100).unwrap();
    inventory.record_movement(&inbound(10, 7), 200).unwrap();
    let mut draft = outbound(4);
    draft.unit_cost = Some(999);
    assert_eq!(inventory.record_movement(&draft, 300), Ok(2));
    let moved = inventory.movement(2).unwrap();
    assert_eq!(moved.id, 2);
    assert_eq!(moved.quantity, -4);
    assert_eq!(moved.unit_cost, 6);
    assert_eq!(moved.movement_date, 300);
    assert_eq!(moved.movement_type, MovementType::Sale);
    assert_eq!(moved.reference_type, Some(ReferenceType::SalesOrder));
    assert_eq!(moved.reference_id, Some(5));
    assert_eq!(inventory.get_balance(V, W), balance(16, 6));
}

#[test]
fn an_emptied_cell_takes_the_cost_of_the_next_receipt() {
    let mut inventory = Inventory::new();
    inventory.record_movement(&inbound(10, 5), 100).unwrap();
    inventory.record_movement(&outbound(10), 200).unwrap();
    assert_eq!(inventory.get_balance(V, W), balance(0, 5));
    inventory.record_movement(&inbound(3, 9), 300).unwrap();
    assert_eq!(inventory.get_balance(V, W), balance(3, 9));
}

#[test]
fn a_movement_of_nothing_is_refused() {
    let mut inventory = Inventory::new();
    assert_eq!(
        inventory.record_movement(&inbound(0, 5), 100),
        Err(LedgerError::Validation(ValidationError::ZeroQuantity))
    );
    assert_eq!(inventory.len(), 0);
}

#[test]
fn a_receipt_needs_its_unit_cost() {
    let mut inventory = Inventory::new();
    let mut draft = inbound(5, 0);
    draft.unit_cost = None;
    assert_eq!(
        inventory.record_movement(&draft, 100),
        Err(LedgerError::Validation(ValidationError::MissingUnitCost))
    );
    assert_eq!(inventory.len(), 0);
}

#[test]
fn a_quantity_beyond_range_is_overflow() {
    let mut inventory = Inventory::new();
    inventory.record_movement(&inbound(i64::MAX, 1), 100).unwrap();
    assert_eq!(
        inventory.record_movement(&inbound(1, 1), 200),
        Err(LedgerError::Validation(ValidationError::AmountOverflow))
    );
    assert_eq!(inventory.get_balance(V, W), balance(i64::MAX, 1));
}

#[test]
fn cells_do_not_touch_each_other() {
    let mut inventory = Inventory::new();
    inventory.record_movement(&inbound(10, 5), 100).unwrap();
    let mut elsewhere = inbound(3, 8);
    elsewhere.warehouse_id = W + 1;
    inventory.record_movement(&elsewhere, 200).unwrap();
    let mut another = inbound(4, 9);
    another.variant_id = V + 1;
    inventory.record_movement(&another, 300).unwrap();
    assert_eq!(inventory.get_balance(V, W), balance(10, 5));
    assert_eq!(inventory.get_balance(V, W + 1), balance(3, 8));
    assert_eq!(inventory.get_balance(V + 1, W), balance(4, 9));
    assert_eq!(inventory.get_balance(V + 1, W + 1), balance(0, 0));
}

#[test]
fn replay_agrees_with_the_kept_balance() {
    let mut inventory = Inventory::new();
    let steps: Vec<(CreateStockMovement, i64)> = vec![
        (inbound(10, 5), 100),
        (outbound(3), 150),
        (inbound(7, 9), 120),
        (outbound(20), 130),
        (inbound(1, 1), 90),
        (outbound(14), 400),
        (outbound(1), 95),
    ];
    for (draft, date) in steps {
        let _ = inventory.record_movement(&draft, date);
        assert_eq!(inventory.get_balance(V, W), inventory.current_balance(V, W));
    }
    assert_eq!(inventory.get_balance(V, W), balance(0, 7));
}

#[test]
fn the_log_is_kept_in_the_order_of_dates() {
    let mut inventory = Inventory::new();
    assert_eq!(inventory.record_movement(&inbound(1, 1), 300), Ok(0));
    assert_eq!(inventory.record_movement(&inbound(2, 1), 100), Ok(1));
    assert_eq!(inventory.record_movement(&inbound(3, 1), 200), Ok(2));
    assert_eq!(inventory.record_movement(&inbound(4, 1), 100), Ok(3));
    let seen: Vec<(u64, i64)> = log(&inventory).iter().map(|m| (m.id, m.movement_date)).collect();
    assert_eq!(seen, vec![(1, 100), (3, 100), (2, 200), (0, 300)]);
}

#[test]
fn a_backdated_receipt_moves_the_average_of_what_follows() {
    let mut inventory = Inventory::new();
    inventory.record_movement(&inbound(10, 7), 200).unwrap();
    inventory.record_movement(&inbound(10, 5), 100).unwrap();
    assert_eq!(inventory.get_balance(V, W), balance(20, 6));
    assert_eq!(inventory.current_balance(V, W), balance(20, 6));
}

#[test]
fn a_backdated_issue_is_costed_where_it_stands() {
    let mut inventory = Inventory::new();
    inventory.record_movement(&inbound(10, 5), 100).unwrap();
    inventory.record_movement(&inbound(10, 7), 300).unwrap();
    assert_eq!(inventory.record_movement(&outbound(4), 200), Ok(2));
    let moved = inventory.movement(1).unwrap();
    assert_eq!(moved.id, 2);
    assert_eq!(moved.unit_cost, 5);
    // 6 at 5 and 10 at 7: 100 / 16 = 6.25
    assert_eq!(inventory.get_balance(V, W), balance(16, 6));
}

#[test]
fn a_backdated_issue_that_starves_a_later_one_is_refused() {
    let mut inventory = Inventory::new();
    inventory.record_movement(&inbound(10, 5), 100).unwrap();
    inventory.record_movement(&outbound(8), 300).unwrap();
    let r = inventory.record_movement(&outbound(5), 200);
    assert_eq!(
        r,
        Err(LedgerError::Consistency(ConsistencyError::NegativeBalanceProjected { projected: -3 }))
    );
    assert_eq!(inventory.len(), 2);
    assert_eq!(inventory.get_balance(V, W), balance(2, 5));
}

#[test]
fn an_issue_dated_before_the_stock_came_is_insufficient() {
    let mut inventory = Inventory::new();
    inventory.record_movement(&inbound(10, 5), 100).unwrap();
    let r = inventory.record_movement(&outbound(5), 50);
    assert_eq!(
        r,
        Err(LedgerError::Consistency(ConsistencyError::InsufficientStock {
            available: 0,
            requested: 5
        }))
    );
}

#[test]
fn rebuilding_from_the_recorded_movements_gives_the_same_ledger() {
    let mut inventory = Inventory::new();
    inventory.record_movement(&inbound(10, 5), 100).unwrap();
    inventory.record_movement(&inbound(10, 7), 300).unwrap();
    inventory.record_movement(&outbound(4), 200).unwrap();
    let mut elsewhere = inbound(3, 8);
    elsewhere.warehouse_id = W + 1;
    inventory.record_movement(&elsewhere, 250).unwrap();
    let mut rows = log(&inventory);
    rows.sort_by_key(|m| m.id);
    let rebuilt = Inventory::rebuild(&rows).unwrap();
    assert_eq!(log(&rebuilt), log(&inventory));
    assert_eq!(rebuilt.get_balance(V, W), inventory.get_balance(V, W));
    assert_eq!(rebuilt.get_balance(V, W + 1), balance(3, 8));
}

#[test]
fn rebuilding_stops_at_the_first_movement_that_cannot_be() {
    let mut row = StockMovement {
        id: 0,
        company_id: 1,
        variant_id: V,
        warehouse_id: W,
        quantity: 5,
        movement_type: MovementType::Purchase,
        reference_type: None,
        reference_id: None,
        unit_cost: 3,
        movement_date: 100,
    };
    let first = row;
    row.id = 1;
    row.quantity = -6;
    row.movement_date = 200;
    let r = Inventory::rebuild(&vec![first, row]);
    assert_eq!(
        r.err(),
        Some(LedgerError::Consistency(ConsistencyError::InsufficientStock {
            available: 5,
            requested: 6
        }))
    );
    assert!(Inventory::rebuild(&vec![]).is_ok());
}

#[test]
fn a_batch_is_recorded_whole() {
    let mut inventory = Inventory::new();
    inventory.record_movement(&inbound(10, 5), 100).unwrap();
    let batch = inventory.record_all(&vec![outbound(4), outbound(6)], 200).unwrap();
    let ids: Vec<u64> = batch.movements().iter().map(|m| m.id).collect();
    assert_eq!(ids, vec![1, 2]);
    assert_eq!(batch.movements()[1].unit_cost, 5);
    assert_eq!(inventory.get_balance(V, W), balance(0, 5));
    assert_eq!(inventory.len(), 3);
}

#[test]
fn a_batch_that_fails_leaves_nothing() {
    let mut inventory = Inventory::new();
    inventory.record_movement(&inbound(10, 5), 100).unwrap();
    inventory.record_movement(&inbound(1, 5), 300).unwrap();
    let before = log(&inventory);
    let r = inventory.record_all(&vec![outbound(4), outbound(6), outbound(1)], 200);
    assert_eq!(
        r.err(),
        Some(LedgerError::Consistency(ConsistencyError::InsufficientStock {
            available: 0,
            requested: 1
        }))
    );
    assert_eq!(log(&inventory), before);
    assert_eq!(inventory.get_balance(V, W), balance(11, 5));
    assert_eq!(inventory.current_balance(V, W), balance(11, 5));
}

#[test]
fn a_batch_can_be_taken_back() {
    let mut inventory = Inventory::new();
    inventory.record_movement(&inbound(10, 5), 100).unwrap();
    inventory.record_movement(&inbound(2, 8), 300).unwrap();
    let before = log(&inventory);
    let kept = inventory.get_balance(V, W);
    let mut elsewhere = inbound(3, 8);
    elsewhere.warehouse_id = W + 1;
    let batch = inventory.record_all(&vec![outbound(4), elsewhere], 200).unwrap();
    assert_eq!(inventory.len(), 4);
    inventory.revert(batch);
    assert_eq!(log(&inventory), before);
    assert_eq!(inventory.get_balance(V, W), kept);
    assert_eq!(inventory.get_balance(V, W + 1), balance(0, 0));
    // ids go on from what is left
    assert_eq!(inventory.record_movement(&inbound(1, 1), 400), Ok(2));
}

#[test]
fn movement_types_go_by_their_stored_names() {
    let all = [
        (MovementType::Purchase, "purchase"),
        (MovementType::Sale, "sale"),
        (MovementType::Transfer, "transfer"),
        (MovementType::Adjustment, "adjustment"),
    ];
    for (kind, name) in all {
        assert_eq!(kind.name(), name);
        assert_eq!(MovementType::from_name(name), Some(kind));
    }
    assert_eq!(MovementType::from_name("sales"), None);
    assert_eq!(MovementType::from_name(""), None);
}

#[test]
fn unknown_documents_are_other_documents() {
    assert_eq!(ReferenceType::from_name("sales_order"), ReferenceType::SalesOrder);
    assert_eq!(ReferenceType::from_name("purchase_order"), ReferenceType::PurchaseOrder);
    assert_eq!(ReferenceType::from_name("other"), ReferenceType::Other);
    assert_eq!(ReferenceType::from_name("invoice"), ReferenceType::Other);
    assert_eq!(ReferenceType::SalesOrder.name(), "sales_order");
    assert_eq!(ReferenceType::PurchaseOrder.name(), "purchase_order");
    assert_eq!(ReferenceType::Other.name(), "other");
}

/// A plain model of one cell: the movements in the order of dates, then of
/// recording, replayed from nothing each time.
struct Model {
    rows: Vec<(i64, u64, i64, u64)>,
}

impl Model {
    fn replay(rows: &[(i64, u64, i64, u64)]) -> Result<(i64, u64), i64> {
        let mut quantity: i128 = 0;
        let mut cost: u64 = 0;
        for &(_, _, moved, unit_cost) in rows {
            if moved > 0 {
                if quantity == 0 {
                    cost = unit_cost;
                } else {
                    let value = quantity as u128 * cost as u128 + moved as u128 * unit_cost as u128;
                    let units = (quantity + moved as i128) as u128;
                    let (q, r) = (value / units, value % units);
                    cost = (if 2 * r > units || (2 * r == units && q % 2 == 1) { q + 1 } else { q }) as u64;
                }
                quantity += moved as i128;
            } else {
                quantity += moved as i128;
                if quantity < 0 {
                    return Err(quantity as i64);
                }
            }
        }
        Ok((quantity as i64, cost))
    }

    fn record(&mut self, date: i64, moved: i64, unit_cost: u64) -> Result<u64, LedgerError> {
        let at = self.rows.iter().take_while(|r| r.0 <= date).count();
        let (before, _) = Model::replay(&self.rows[..at]).unwrap();
        if moved < 0 && before + moved < 0 {
            return Err(LedgerError::Consistency(ConsistencyError::InsufficientStock {
                available: before as u64,
                requested: (-moved) as u64,
            }));
        }
        let id = self.rows.len() as u64;
        let mut tried = self.rows.clone();
        tried.insert(at, (date, id, moved, unit_cost));
        match Model::replay(&tried) {
            Ok(_) => {
                self.rows = tried;
                Ok(id)
            }
            Err(projected) => Err(LedgerError::Consistency(
                ConsistencyError::NegativeBalanceProjected { projected },
            )),
        }
    }
}

#[test]
fn the_ledger_agrees_with_a_plain_model_on_many_movements() {
    let mut seed: u64 = 0x2545_f491_4f6c_dd1d;
    let mut next = move |bound: u64| -> u64 {
        seed ^= seed << 13;
        seed ^= seed >> 7;
        seed ^= seed << 17;
        seed % bound
    };
    for _ in 0..40 {
        let mut inventory = Inventory::new();
        let mut model = Model { rows: Vec::new() };
        for _ in 0..60 {
            let date = next(12) as i64;
            let draft = if next(3) == 0 {
                inbound(1 + next(9) as i64, 1 + next(50))
            } else {
                outbound(1 + next(6) as i64)
            };
            let got = inventory.record_movement(&draft, date);
            let want = model.record(date, draft.quantity, draft.unit_cost.unwrap_or(0));
            assert_eq!(got, want);
            let (quantity, cost) = Model::replay(&model.rows).unwrap();
            assert_eq!(inventory.get_balance(V, W), balance(quantity, cost));
            assert_eq!(inventory.current_balance(V, W), balance(quantity, cost));
            let ids: Vec<u64> = log(&inventory).iter().map(|m| m.id).collect();
            let model_ids: Vec<u64> = model.rows.iter().map(|r| r.1).collect();
            assert_eq!(ids, model_ids);
        }
        let mut rows = log(&inventory);
        rows.sort_by_key(|m| m.id);
        let rebuilt = Inventory::rebuild(&rows).unwrap();
        assert_eq!(log(&rebuilt), log(&inventory));
        assert_eq!(rebuilt.get_balance(V, W), inventory.get_balance(V, W));
    }
}

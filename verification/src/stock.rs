//! The stock ledger: an append-only log of movements, and for every cell
//! of variant and warehouse the quantity on hand and its weighted-average
//! cost, which are what a replay of the cell's movements gives.

use crate::error::{ConsistencyError, LedgerError, ValidationError};
use crate::money::{div_round_half_even, round_half_even};
use vstd::arithmetic::div_mod::lemma_fundamental_div_mod;
use crate::text::same_text;
use vstd::prelude::*;

verus! {

/// What kind of event moved the stock.
#[derive(Clone, Copy, Debug, PartialEq, Eq, Structural)]
pub enum MovementType {
    Purchase,
    Sale,
    Transfer,
    Adjustment,
}

/// The kind of document that a movement came from.
#[derive(Clone, Copy, Debug, PartialEq, Eq, Structural)]
pub enum ReferenceType {
    SalesOrder,
    PurchaseOrder,
    Other,
}

/// A movement that is yet to be recorded. A positive quantity comes in and
/// needs its unit cost; a negative one goes out at the cell's own cost,
/// whatever `unit_cost` says.
#[derive(Clone, Copy, Debug, PartialEq, Eq)]
pub struct CreateStockMovement {
    pub company_id: u128,
    pub variant_id: u128,
    pub warehouse_id: u128,
    pub quantity: i64,
    pub movement_type: MovementType,
    pub reference_type: Option<ReferenceType>,
    pub reference_id: Option<u128>,
    pub unit_cost: Option<u64>,
}

/// A recorded movement. The log holds it for good.
#[derive(Clone, Copy, Debug, PartialEq, Eq)]
pub struct StockMovement {
    pub id: u64,
    pub company_id: u128,
    pub variant_id: u128,
    pub warehouse_id: u128,
    pub quantity: i64,
    pub movement_type: MovementType,
    pub reference_type: Option<ReferenceType>,
    pub reference_id: Option<u128>,
    pub unit_cost: u64,
    pub movement_date: i64,
}

/// What a cell holds: the quantity on hand and what a unit of it cost on
/// average, in minor units of the base currency.
#[derive(Clone, Copy, Debug, PartialEq, Eq)]
pub struct Balance {
    pub quantity: i64,
    pub weighted_avg_cost: u64,
}

/// The balance of one cell as the ledger keeps it.
#[derive(Clone, Copy, Debug, PartialEq, Eq)]
pub struct StockLedger {
    pub variant_id: u128,
    pub warehouse_id: u128,
    pub quantity: i64,
    pub weighted_avg_cost: u64,
}

/// Why a replay stopped.
#[derive(Clone, Copy, Debug, PartialEq, Eq)]
pub enum ReplayFault {
    /// A movement would have left `projected`, which is below zero.
    Negative { projected: i64 },
    /// A movement would have brought the quantity above `i64::MAX`.
    Overflow,
}

/// A cell that nothing has moved through.
pub open spec fn empty_balance() -> Balance {
    Balance { quantity: 0, weighted_avg_cost: 0 }
}

/// Whether `m` moves stock of the cell of `variant_id` and `warehouse_id`.
pub open spec fn in_cell(m: StockMovement, variant_id: u128, warehouse_id: u128) -> bool {
    m.variant_id == variant_id && m.warehouse_id == warehouse_id
}

/// The average cost of a unit once `received` units at `unit_cost` have
/// joined `on_hand` units at `cost`, rounded half to even. Into an empty
/// cell the cost is that of what came in.
pub open spec fn average_cost(on_hand: int, cost: int, received: int, unit_cost: int) -> int {
    if on_hand == 0 {
        unit_cost
    } else {
        round_half_even(on_hand * cost + received * unit_cost, on_hand + received)
    }
}

/// The balance after one movement of the cell. What comes in raises the
/// quantity and moves the average cost; what goes out lowers the quantity
/// and leaves the cost; nothing goes out that is not there.
pub open spec fn apply_movement(b: Balance, m: StockMovement) -> Result<Balance, ReplayFault> {
    if m.quantity > 0 {
        if b.quantity + m.quantity > i64::MAX {
            Err(ReplayFault::Overflow)
        } else {
            Ok(
                Balance {
                    quantity: (b.quantity + m.quantity) as i64,
                    weighted_avg_cost: average_cost(
                        b.quantity as int,
                        b.weighted_avg_cost as int,
                        m.quantity as int,
                        m.unit_cost as int,
                    ) as u64,
                },
            )
        }
    } else if b.quantity + m.quantity < 0 {
        Err(ReplayFault::Negative { projected: (b.quantity + m.quantity) as i64 })
    } else {
        Ok(
            Balance {
                quantity: (b.quantity + m.quantity) as i64,
                weighted_avg_cost: b.weighted_avg_cost,
            },
        )
    }
}

/// The balance of a cell that starts at `start` and sees the movements of
/// `log` in their order; those of other cells pass it by. The first
/// movement that cannot be applied stops the replay.
pub open spec fn replay_from(
    start: Balance,
    log: Seq<StockMovement>,
    variant_id: u128,
    warehouse_id: u128,
) -> Result<Balance, ReplayFault>
    decreases log.len(),
{
    if log.len() == 0 {
        Ok(start)
    } else {
        match replay_from(start, log.drop_last(), variant_id, warehouse_id) {
            Err(f) => Err(f),
            Ok(b) => if in_cell(log.last(), variant_id, warehouse_id) {
                apply_movement(b, log.last())
            } else {
                Ok(b)
            },
        }
    }
}

/// The balance of a cell by replay of the whole log.
pub open spec fn cell_balance(log: Seq<StockMovement>, variant_id: u128, warehouse_id: u128) -> Result<
    Balance,
    ReplayFault,
> {
    replay_from(empty_balance(), log, variant_id, warehouse_id)
}

/// Where a movement dated `date` enters a log that is ordered by date:
/// behind every movement that is not dated later, so that among equal
/// dates the order of recording decides.
pub open spec fn insertion_point(log: Seq<StockMovement>, date: i64) -> int
    decreases log.len(),
{
    if log.len() == 0 {
        0
    } else if log.last().movement_date <= date {
        log.len() as int
    } else {
        insertion_point(log.drop_last(), date)
    }
}

/// Whether the movements stand in the order of their dates.
pub open spec fn ordered_by_date(log: Seq<StockMovement>) -> bool {
    forall|i: int, j: int|
        0 <= i < j < log.len() ==> (#[trigger] log[i]).movement_date <= (
        #[trigger] log[j]).movement_date
}

/// The movement that a draft becomes.
pub open spec fn movement_of(
    draft: CreateStockMovement,
    id: u64,
    unit_cost: u64,
    date: i64,
) -> StockMovement {
    StockMovement {
        id,
        company_id: draft.company_id,
        variant_id: draft.variant_id,
        warehouse_id: draft.warehouse_id,
        quantity: draft.quantity,
        movement_type: draft.movement_type,
        reference_type: draft.reference_type,
        reference_id: draft.reference_id,
        unit_cost,
        movement_date: date,
    }
}

/// What becomes of a draft dated `date` against `log`: the movement that
/// enters the log at `insertion_point(log, date)`, or the reason why none
/// does.
///
/// A draft of nothing is `ZeroQuantity`, an inbound one without a unit cost
/// `MissingUnitCost`. The movement takes the cell's balance as it stands
/// at its place in the order of dates. Going out, it is costed at that
/// balance's average, and where more is asked for than that balance holds
/// it is `InsufficientStock`. The movements of the cell that are dated
/// later are then replayed on top: where one of them would leave the cell
/// below zero the draft is `NegativeBalanceProjected`. A quantity above
/// `i64::MAX` at any point is `AmountOverflow`.
pub open spec fn record_outcome(log: Seq<StockMovement>, draft: CreateStockMovement, date: i64) -> Result<
    StockMovement,
    LedgerError,
> {
    let p = insertion_point(log, date);
    let before = cell_balance(log.take(p), draft.variant_id, draft.warehouse_id)->Ok_0;
    let unit_cost = if draft.quantity > 0 {
        draft.unit_cost->Some_0
    } else {
        before.weighted_avg_cost
    };
    let m = movement_of(draft, log.len() as u64, unit_cost, date);
    if draft.quantity == 0 {
        Err(LedgerError::Validation(ValidationError::ZeroQuantity))
    } else if draft.quantity > 0 && draft.unit_cost is None {
        Err(LedgerError::Validation(ValidationError::MissingUnitCost))
    } else {
        match apply_movement(before, m) {
            Err(ReplayFault::Negative { projected }) => Err(
                LedgerError::Consistency(
                    ConsistencyError::InsufficientStock {
                        available: before.quantity as u64,
                        requested: (-draft.quantity) as u64,
                    },
                ),
            ),
            Err(ReplayFault::Overflow) => Err(
                LedgerError::Validation(ValidationError::AmountOverflow),
            ),
            Ok(after) => match replay_from(
                after,
                log.skip(p),
                draft.variant_id,
                draft.warehouse_id,
            ) {
                Err(ReplayFault::Negative { projected }) => Err(
                    LedgerError::Consistency(
                        ConsistencyError::NegativeBalanceProjected { projected },
                    ),
                ),
                Err(ReplayFault::Overflow) => Err(
                    LedgerError::Validation(ValidationError::AmountOverflow),
                ),
                Ok(_) => Ok(m),
            },
        }
    }
}

/// The average of two costs lies between them, so it fits where they fit.
proof fn lemma_average_bounded(on_hand: int, cost: int, received: int, unit_cost: int, bound: int)
    requires
        on_hand > 0,
        received > 0,
        0 <= cost <= bound,
        0 <= unit_cost <= bound,
    ensures
        0 <= round_half_even(on_hand * cost + received * unit_cost, on_hand + received) <= bound,
{
    let n = on_hand * cost + received * unit_cost;
    let d = on_hand + received;
    assert(0 <= n <= d * bound) by (nonlinear_arith)
        requires
            n == on_hand * cost + received * unit_cost,
            d == on_hand + received,
            on_hand > 0,
            received > 0,
            0 <= cost <= bound,
            0 <= unit_cost <= bound,
    ;
    lemma_fundamental_div_mod(n, d);
    let q = n / d;
    let r = n % d;
    assert(0 <= q <= bound && (q == bound ==> r == 0)) by (nonlinear_arith)
        requires
            n == d * q + r,
            0 <= r < d,
            0 <= n <= d * bound,
            d > 0,
    ;
}

/// One movement applied to a balance.
fn apply(b: Balance, m: &StockMovement) -> (r: Result<Balance, ReplayFault>)
    requires
        b.quantity >= 0,
    ensures
        r == apply_movement(b, *m),
        r matches Ok(after) ==> after.quantity >= 0,
{
    if m.quantity > 0 {
        let sum: i128 = b.quantity as i128 + m.quantity as i128;
        if sum > i64::MAX as i128 {
            return Err(ReplayFault::Overflow);
        }
        let cost: u64 = if b.quantity == 0 {
            m.unit_cost
        } else {
            let on_hand: u128 = b.quantity as u128;
            let received: u128 = m.quantity as u128;
            proof {
                lemma_average_bounded(
                    on_hand as int,
                    b.weighted_avg_cost as int,
                    received as int,
                    m.unit_cost as int,
                    u64::MAX as int,
                );
                assert(on_hand * b.weighted_avg_cost <= 0x7fff_ffff_ffff_ffff
                    * 0xffff_ffff_ffff_ffff) by (nonlinear_arith)
                    requires
                        0 <= on_hand <= 0x7fff_ffff_ffff_ffff,
                        0 <= b.weighted_avg_cost <= 0xffff_ffff_ffff_ffff,
                ;
                assert(received * m.unit_cost <= 0x7fff_ffff_ffff_ffff * 0xffff_ffff_ffff_ffff)
                    by (nonlinear_arith)
                    requires
                        0 <= received <= 0x7fff_ffff_ffff_ffff,
                        0 <= m.unit_cost <= 0xffff_ffff_ffff_ffff,
                ;
            }
            let value: u128 = on_hand * (b.weighted_avg_cost as u128) + received * (
            m.unit_cost as u128);
            let averaged: u128 = div_round_half_even(value, on_hand + received);
            averaged as u64
        };
        Ok(Balance { quantity: sum as i64, weighted_avg_cost: cost })
    } else {
        let left: i64 = b.quantity + m.quantity;
        if left < 0 {
            Err(ReplayFault::Negative { projected: left })
        } else {
            Ok(Balance { quantity: left, weighted_avg_cost: b.weighted_avg_cost })
        }
    }
}

/// Replays the movements of `log` from `start` up to `end` on top of
/// `from`.
fn replay_range(
    log: &Vec<StockMovement>,
    start: usize,
    end: usize,
    from: Balance,
    variant_id: u128,
    warehouse_id: u128,
) -> (r: Result<Balance, ReplayFault>)
    requires
        start <= end <= log@.len(),
        from.quantity >= 0,
    ensures
        r == replay_from(from, log@.subrange(start as int, end as int), variant_id, warehouse_id),
        r matches Ok(b) ==> b.quantity >= 0,
{
    let mut b: Balance = from;
    let mut i: usize = start;
    proof {
        assert(log@.subrange(start as int, start as int) =~= Seq::<StockMovement>::empty());
    }
    while i < end
        invariant
            start <= i <= end <= log@.len(),
            b.quantity >= 0,
            replay_from(from, log@.subrange(start as int, i as int), variant_id, warehouse_id)
                == Ok::<Balance, ReplayFault>(b),
        decreases end - i,
    {
        proof {
            assert(log@.subrange(start as int, i + 1).drop_last() =~= log@.subrange(
                start as int,
                i as int,
            ));
            assert(log@.subrange(start as int, i + 1).last() == log@[i as int]);
        }
        if log[i].variant_id == variant_id && log[i].warehouse_id == warehouse_id {
            match apply(b, &log[i]) {
                Ok(after) => {
                    b = after;
                },
                Err(f) => {
                    proof {
                        assert(log@.subrange(start as int, end as int).take(
                            (i + 1 - start) as int,
                        ) =~= log@.subrange(start as int, i + 1));
                        lemma_replay_stays_stopped(
                            from,
                            log@.subrange(start as int, end as int),
                            (i + 1 - start) as int,
                            variant_id,
                            warehouse_id,
                        );
                    }
                    return Err(f);
                },
            }
        }
        i = i + 1;
    }
    Ok(b)
}

/// A replay that has stopped within a prefix has stopped for the whole.
proof fn lemma_replay_stays_stopped(
    start: Balance,
    log: Seq<StockMovement>,
    k: int,
    variant_id: u128,
    warehouse_id: u128,
)
    requires
        0 <= k <= log.len(),
        replay_from(start, log.take(k), variant_id, warehouse_id) is Err,
    ensures
        replay_from(start, log, variant_id, warehouse_id) == replay_from(
            start,
            log.take(k),
            variant_id,
            warehouse_id,
        ),
    decreases log.len() - k,
{
    if k < log.len() {
        assert(log.take(k + 1).drop_last() =~= log.take(k));
        lemma_replay_stays_stopped(start, log, k + 1, variant_id, warehouse_id);
    } else {
        assert(log.take(k) =~= log);
    }
}

/// A replay over two logs on end is the replay over the second on top of
/// the replay over the first.
proof fn lemma_replay_split(
    start: Balance,
    a: Seq<StockMovement>,
    b: Seq<StockMovement>,
    variant_id: u128,
    warehouse_id: u128,
)
    ensures
        replay_from(start, a + b, variant_id, warehouse_id) == match replay_from(
            start,
            a,
            variant_id,
            warehouse_id,
        ) {
            Ok(x) => replay_from(x, b, variant_id, warehouse_id),
            Err(f) => Err(f),
        },
    decreases b.len(),
{
    if b.len() == 0 {
        assert(a + b =~= a);
    } else {
        assert((a + b).drop_last() =~= a + b.drop_last());
        assert((a + b).last() == b.last());
        lemma_replay_split(start, a, b.drop_last(), variant_id, warehouse_id);
    }
}

/// Movements of other cells leave a cell's balance alone.
proof fn lemma_replay_passes_by(
    start: Balance,
    log: Seq<StockMovement>,
    variant_id: u128,
    warehouse_id: u128,
)
    requires
        forall|k: int| 0 <= k < log.len() ==> !in_cell(#[trigger] log[k], variant_id, warehouse_id),
    ensures
        replay_from(start, log, variant_id, warehouse_id) == Ok::<Balance, ReplayFault>(start),
    decreases log.len(),
{
    if log.len() > 0 {
        assert(!in_cell(log[log.len() - 1], variant_id, warehouse_id));
        lemma_replay_passes_by(start, log.drop_last(), variant_id, warehouse_id);
    }
}

/// What a movement that enters the log at `p` does to the balance of a
/// cell: nothing where it is of another cell; in its own cell it is applied
/// to the balance of the movements before it, and those behind it follow.
proof fn lemma_replay_insert(
    log: Seq<StockMovement>,
    p: int,
    m: StockMovement,
    variant_id: u128,
    warehouse_id: u128,
)
    requires
        0 <= p <= log.len(),
    ensures
        !in_cell(m, variant_id, warehouse_id) ==> cell_balance(
            log.insert(p, m),
            variant_id,
            warehouse_id,
        ) == cell_balance(log, variant_id, warehouse_id),
        in_cell(m, variant_id, warehouse_id) ==> cell_balance(
            log.insert(p, m),
            variant_id,
            warehouse_id,
        ) == match cell_balance(log.take(p), variant_id, warehouse_id) {
            Err(f) => Err(f),
            Ok(b) => match apply_movement(b, m) {
                Err(f) => Err(f),
                Ok(after) => replay_from(after, log.skip(p), variant_id, warehouse_id),
            },
        },
{
    let head = log.take(p);
    let tail = log.skip(p);
    assert(log.insert(p, m) =~= head.push(m) + tail);
    assert(log =~= head + tail);
    assert(head.push(m).drop_last() =~= head);
    lemma_replay_split(empty_balance(), head.push(m), tail, variant_id, warehouse_id);
    lemma_replay_split(empty_balance(), head, tail, variant_id, warehouse_id);
}

/// A movement that enters an ordered log at its place, under an id that
/// no movement has, leaves the log ordered and the ids apart.
proof fn lemma_insert_keeps_log(log: Seq<StockMovement>, p: int, m: StockMovement)
    requires
        0 <= p <= log.len(),
        ordered_by_date(log),
        forall|i: int| 0 <= i < log.len() ==> (#[trigger] log[i]).id < log.len(),
        forall|i: int, j: int|
            0 <= i < j < log.len() ==> (#[trigger] log[i]).id != (#[trigger] log[j]).id,
        forall|i: int| 0 <= i < p ==> (#[trigger] log[i]).movement_date <= m.movement_date,
        forall|i: int| p <= i < log.len() ==> (#[trigger] log[i]).movement_date > m.movement_date,
        m.id == log.len(),
    ensures
        ordered_by_date(log.insert(p, m)),
        forall|i: int|
            0 <= i < log.insert(p, m).len() ==> (#[trigger] log.insert(p, m)[i]).id < log.insert(
                p,
                m,
            ).len(),
        forall|i: int, j: int|
            0 <= i < j < log.insert(p, m).len() ==> (#[trigger] log.insert(p, m)[i]).id != (
            #[trigger] log.insert(p, m)[j]).id,
{
    let after = log.insert(p, m);
    assert forall|i: int, j: int| 0 <= i < j < after.len() implies (
    #[trigger] after[i]).movement_date <= (#[trigger] after[j]).movement_date && after[i].id
        != after[j].id by {
        let i0 = if i < p {
            i
        } else {
            i - 1
        };
        let j0 = if j < p {
            j
        } else {
            j - 1
        };
        if i != p && j != p {
            assert(after[i] == log[i0]);
            assert(after[j] == log[j0]);
            assert(log[i0].movement_date <= log[j0].movement_date);
            assert(log[i0].id != log[j0].id);
        } else if i == p {
            assert(after[j] == log[j0]);
            assert(log[j0].movement_date > m.movement_date);
            assert(log[j0].id < log.len());
        } else {
            assert(after[i] == log[i0]);
            assert(log[i0].movement_date <= m.movement_date);
            assert(log[i0].id < log.len());
        }
    }
    assert forall|i: int| 0 <= i < after.len() implies (#[trigger] after[i]).id
        < after.len() by {
        if i != p {
            let i0 = if i < p {
                i
            } else {
                i - 1
            };
            assert(after[i] == log[i0]);
            assert(log[i0].id < log.len());
        }
    }
}

/// Where the row of a movement's cell is set to what the cell replays to
/// once the movement is in the log, and the other rows stay, every row
/// states again what its cell replays to, and every movement has its row.
proof fn lemma_insert_keeps_rows(
    log: Seq<StockMovement>,
    cells: Seq<StockLedger>,
    after: Seq<StockLedger>,
    p: int,
    m: StockMovement,
    found: Option<int>,
    last: Balance,
)
    requires
        0 <= p <= log.len(),
        state_wf(log, cells),
        last.quantity >= 0,
        cell_balance(log.insert(p, m), m.variant_id, m.warehouse_id) == Ok::<
            Balance,
            ReplayFault,
        >(last),
        match found {
            Some(c) => 0 <= c < cells.len() && cells[c].variant_id == m.variant_id
                && cells[c].warehouse_id == m.warehouse_id && after == cells.update(
                c,
                StockLedger {
                    variant_id: m.variant_id,
                    warehouse_id: m.warehouse_id,
                    quantity: last.quantity,
                    weighted_avg_cost: last.weighted_avg_cost,
                },
            ),
            None => !has_row(cells, m.variant_id, m.warehouse_id) && after == cells.push(
                StockLedger {
                    variant_id: m.variant_id,
                    warehouse_id: m.warehouse_id,
                    quantity: last.quantity,
                    weighted_avg_cost: last.weighted_avg_cost,
                },
            ),
        },
    ensures
        forall|c: int|
            0 <= c < after.len() ==> (#[trigger] after[c]).quantity >= 0 && cell_balance(
                log.insert(p, m),
                after[c].variant_id,
                after[c].warehouse_id,
            ) == Ok::<Balance, ReplayFault>(row_balance(after[c])),
        forall|c: int, d: int|
            0 <= c < d < after.len() ==> !((#[trigger] after[c]).variant_id == (
            #[trigger] after[d]).variant_id && after[c].warehouse_id == after[d].warehouse_id),
        forall|k: int|
            0 <= k < log.insert(p, m).len() ==> has_row(
                after,
                (#[trigger] log.insert(p, m)[k]).variant_id,
                log.insert(p, m)[k].warehouse_id,
            ),
{
    let grown = log.insert(p, m);
    let own: int = match found {
        Some(c) => c,
        None => cells.len() as int,
    };
    assert(after[own].variant_id == m.variant_id && after[own].warehouse_id == m.warehouse_id);
    assert forall|c: int| 0 <= c < after.len() implies (#[trigger] after[c]).quantity >= 0
        && cell_balance(grown, after[c].variant_id, after[c].warehouse_id) == Ok::<
        Balance,
        ReplayFault,
    >(row_balance(after[c])) by {
        if c != own {
            assert(after[c] == cells[c]);
            assert(cells[c].quantity >= 0);
            assert(!in_cell(m, cells[c].variant_id, cells[c].warehouse_id)) by {
                match found {
                    Some(at) => {
                        if c < at {
                            assert(!(cells[c].variant_id == cells[at].variant_id
                                && cells[c].warehouse_id == cells[at].warehouse_id));
                        } else {
                            assert(!(cells[at].variant_id == cells[c].variant_id
                                && cells[at].warehouse_id == cells[c].warehouse_id));
                        }
                    },
                    None => {
                        if cells[c].variant_id == m.variant_id && cells[c].warehouse_id
                            == m.warehouse_id {
                            assert(has_row(cells, m.variant_id, m.warehouse_id));
                        }
                    },
                }
            }
            lemma_replay_insert(log, p, m, cells[c].variant_id, cells[c].warehouse_id);
        }
    }
    assert forall|c: int, d: int| 0 <= c < d < after.len() implies !((
    #[trigger] after[c]).variant_id == (#[trigger] after[d]).variant_id && after[c].warehouse_id
        == after[d].warehouse_id) by {
        match found {
            Some(at) => {
                assert(after[c].variant_id == cells[c].variant_id && after[c].warehouse_id
                    == cells[c].warehouse_id);
                assert(after[d].variant_id == cells[d].variant_id && after[d].warehouse_id
                    == cells[d].warehouse_id);
                assert(!(cells[c].variant_id == cells[d].variant_id && cells[c].warehouse_id
                    == cells[d].warehouse_id));
            },
            None => {
                if d < cells.len() {
                    assert(after[c] == cells[c] && after[d] == cells[d]);
                    assert(!(cells[c].variant_id == cells[d].variant_id && cells[c].warehouse_id
                        == cells[d].warehouse_id));
                } else {
                    assert(after[c] == cells[c]);
                    if cells[c].variant_id == m.variant_id && cells[c].warehouse_id
                        == m.warehouse_id {
                        assert(has_row(cells, m.variant_id, m.warehouse_id));
                    }
                }
            },
        }
    }
    assert forall|k: int| 0 <= k < grown.len() implies has_row(
        after,
        (#[trigger] grown[k]).variant_id,
        grown[k].warehouse_id,
    ) by {
        if k == p {
            assert(grown[k] == m);
        } else {
            let k0 = if k < p {
                k
            } else {
                k - 1
            };
            assert(grown[k] == log[k0]);
            assert(has_row(cells, log[k0].variant_id, log[k0].warehouse_id));
            let c = choose|c: int|
                0 <= c < cells.len() && (#[trigger] cells[c]).variant_id == log[k0].variant_id
                    && cells[c].warehouse_id == log[k0].warehouse_id;
            assert(after[c].variant_id == cells[c].variant_id && after[c].warehouse_id
                == cells[c].warehouse_id);
        }
    }
}

/// Whether `cells` holds a row for the cell.
pub open spec fn has_row(cells: Seq<StockLedger>, variant_id: u128, warehouse_id: u128) -> bool {
    exists|c: int|
        0 <= c < cells.len() && (#[trigger] cells[c]).variant_id == variant_id
            && cells[c].warehouse_id == warehouse_id
}

/// The balance that a row states.
pub open spec fn row_balance(row: StockLedger) -> Balance {
    Balance { quantity: row.quantity, weighted_avg_cost: row.weighted_avg_cost }
}

/// Whether a log and the rows kept beside it make a sound ledger: the log
/// is in the order of dates, no two movements share an id, every row
/// states what a replay of the log gives for its cell, which is never below
/// zero, and every movement's cell has its row, and one only.
pub open spec fn state_wf(log: Seq<StockMovement>, cells: Seq<StockLedger>) -> bool {
    &&& ordered_by_date(log)
    &&& forall|i: int| 0 <= i < log.len() ==> (#[trigger] log[i]).id < log.len()
    &&& forall|i: int, j: int|
        0 <= i < j < log.len() ==> (#[trigger] log[i]).id != (#[trigger] log[j]).id
    &&& forall|c: int|
        0 <= c < cells.len() ==> (#[trigger] cells[c]).quantity >= 0 && cell_balance(
            log,
            cells[c].variant_id,
            cells[c].warehouse_id,
        ) == Ok::<Balance, ReplayFault>(row_balance(cells[c]))
    &&& forall|c: int, d: int|
        0 <= c < d < cells.len() ==> !((#[trigger] cells[c]).variant_id == (
        #[trigger] cells[d]).variant_id && cells[c].warehouse_id == cells[d].warehouse_id)
    &&& forall|k: int|
        0 <= k < log.len() ==> has_row(cells, (#[trigger] log[k]).variant_id, log[k].warehouse_id)
}

/// The stock ledger: the log of all movements in the order of their dates,
/// and a row for every cell that a movement has touched.
pub struct Inventory {
    log: Vec<StockMovement>,
    cells: Vec<StockLedger>,
}

impl View for Inventory {
    type V = Seq<StockMovement>;

    closed spec fn view(&self) -> Seq<StockMovement> {
        self.log@
    }
}

impl Inventory {
    /// The rows that the ledger keeps, one for each cell.
    pub closed spec fn projection(&self) -> Seq<StockLedger> {
        self.cells@
    }

    /// The log is in the order of dates, no two movements share an id, and
    /// every row states what a replay of the log gives for its cell, which is
    /// never below zero; every movement's cell has its row, and one only.
    pub open spec fn wf(&self) -> bool {
        state_wf(self@, self.projection())
    }

    /// A ledger that nothing has moved through.
    pub fn new() -> (r: Inventory)
        ensures
            r.wf(),
            r@ == Seq::<StockMovement>::empty(),
    {
        Inventory { log: Vec::new(), cells: Vec::new() }
    }

    /// How many movements have been recorded.
    pub fn len(&self) -> (n: usize)
        ensures
            n == self@.len(),
    {
        self.log.len()
    }

    /// The movement at `position` of the log, which is in the order of
    /// dates.
    pub fn movement(&self, position: usize) -> (r: Option<StockMovement>)
        ensures
            position >= self@.len() ==> r.is_none(),
            position < self@.len() ==> r == Some(self@[position as int]),
    {
        if position < self.log.len() {
            Some(self.log[position])
        } else {
            None
        }
    }

    /// Where the ledger keeps the row of a cell.
    fn find_row(&self, variant_id: u128, warehouse_id: u128) -> (r: Option<usize>)
        ensures
            match r {
                Some(c) => c < self.projection().len() && self.projection()[c as int].variant_id
                    == variant_id && self.projection()[c as int].warehouse_id == warehouse_id,
                None => !has_row(self.projection(), variant_id, warehouse_id),
            },
    {
        let mut c: usize = 0;
        while c < self.cells.len()
            invariant
                c <= self.cells@.len(),
                forall|d: int|
                    0 <= d < c ==> !((#[trigger] self.cells@[d]).variant_id == variant_id
                        && self.cells@[d].warehouse_id == warehouse_id),
            decreases self.cells.len() - c,
        {
            if self.cells[c].variant_id == variant_id && self.cells[c].warehouse_id
                == warehouse_id {
                return Some(c);
            }
            c = c + 1;
        }
        None
    }

    /// Where a movement dated `date` enters the log.
    fn find_insertion_point(&self, date: i64) -> (p: usize)
        requires
            self.wf(),
        ensures
            p == insertion_point(self@, date),
            p <= self@.len(),
            forall|i: int| 0 <= i < p ==> (#[trigger] self@[i]).movement_date <= date,
            forall|i: int| p <= i < self@.len() ==> (#[trigger] self@[i]).movement_date > date,
    {
        let mut p: usize = self.log.len();
        proof {
            assert(self@.take(p as int) =~= self@);
        }
        while p > 0 && self.log[p - 1].movement_date > date
            invariant
                p <= self@.len(),
                self@ == self.log@,
                insertion_point(self@, date) == insertion_point(self@.take(p as int), date),
                forall|i: int| p <= i < self@.len() ==> (#[trigger] self@[i]).movement_date > date,
            decreases p,
        {
            proof {
                assert(self@.take(p as int).drop_last() =~= self@.take(p - 1));
            }
            p = p - 1;
        }
        proof {
            if p > 0 {
                assert(self@.take(p as int).last() == self@[p - 1]);
                assert forall|i: int| 0 <= i < p implies (#[trigger] self@[i]).movement_date
                    <= date by {
                    if i < p - 1 {
                        assert(self@[i].movement_date <= self@[p - 1].movement_date);
                    }
                }
            }
        }
        p
    }

    /// Every cell replays to a balance that is not below zero.
    pub proof fn lemma_cell_replays(&self, variant_id: u128, warehouse_id: u128)
        requires
            self.wf(),
        ensures
            cell_balance(self@, variant_id, warehouse_id) is Ok,
            cell_balance(self@, variant_id, warehouse_id)->Ok_0.quantity >= 0,
            !has_row(self.projection(), variant_id, warehouse_id) ==> cell_balance(
                self@,
                variant_id,
                warehouse_id,
            ) == Ok::<Balance, ReplayFault>(empty_balance()),
    {
        let cells = self.projection();
        if has_row(cells, variant_id, warehouse_id) {
            let c = choose|c: int|
                0 <= c < cells.len() && (#[trigger] cells[c]).variant_id == variant_id
                    && cells[c].warehouse_id == warehouse_id;
            assert(cells[c].quantity >= 0);
        } else {
            assert forall|k: int| 0 <= k < self@.len() implies !in_cell(
                #[trigger] self@[k],
                variant_id,
                warehouse_id,
            ) by {
                assert(has_row(cells, self@[k].variant_id, self@[k].warehouse_id));
            }
            lemma_replay_passes_by(empty_balance(), self@, variant_id, warehouse_id);
        }
    }

    /// The balance of a cell as the ledger keeps it: what a replay of the
    /// cell's movements gives, without the replay.
    pub fn get_balance(&self, variant_id: u128, warehouse_id: u128) -> (r: Balance)
        requires
            self.wf(),
        ensures
            cell_balance(self@, variant_id, warehouse_id) == Ok::<Balance, ReplayFault>(r),
            r.quantity >= 0,
    {
        proof {
            self.lemma_cell_replays(variant_id, warehouse_id);
        }
        match self.find_row(variant_id, warehouse_id) {
            Some(c) => Balance {
                quantity: self.cells[c].quantity,
                weighted_avg_cost: self.cells[c].weighted_avg_cost,
            },
            None => Balance { quantity: 0, weighted_avg_cost: 0 },
        }
    }

    /// The balance of a cell by replay of its movements from the log.
    pub fn current_balance(&self, variant_id: u128, warehouse_id: u128) -> (r: Balance)
        requires
            self.wf(),
        ensures
            cell_balance(self@, variant_id, warehouse_id) == Ok::<Balance, ReplayFault>(r),
            r.quantity >= 0,
    {
        proof {
            self.lemma_cell_replays(variant_id, warehouse_id);
            assert(self@.subrange(0, self@.len() as int) =~= self@);
        }
        let start = Balance { quantity: 0, weighted_avg_cost: 0 };
        match replay_range(&self.log, 0, self.log.len(), start, variant_id, warehouse_id) {
            Ok(b) => b,
            Err(_) => start,
        }
    }
}

/// The size of what goes out, for a quantity below zero.
fn outbound_size(quantity: i64) -> (r: u64)
    requires
        quantity < 0,
    ensures
        r == -quantity,
{
    let wide: i128 = -(quantity as i128);
    wide as u64
}

impl Inventory {
    /// Records a movement dated `date` and returns its id.
    ///
    /// What `record_outcome` refuses is refused with that error, and the
    /// ledger stays as it was. What it admits enters the log at its place
    /// in the order of dates, with the number of movements recorded before
    /// as its id, and the row of its cell follows.
    pub fn record_movement(&mut self, draft: &CreateStockMovement, date: i64) -> (r: Result<
        u64,
        LedgerError,
    >)
        requires
            old(self).wf(),
        ensures
            final(self).wf(),
            match record_outcome(old(self)@, *draft, date) {
                Err(e) => r == Err::<u64, LedgerError>(e) && final(self)@ == old(self)@
                    && final(self).projection() == old(self).projection(),
                Ok(m) => r == Ok::<u64, LedgerError>(m.id) && final(self)@ == old(self)@.insert(
                    insertion_point(old(self)@, date),
                    m,
                ),
            },
    {
        match self.record(draft, date) {
            Ok(m) => Ok(m.id),
            Err(e) => Err(e),
        }
    }

    /// Records a movement dated `date` and returns it as recorded.
    fn record(&mut self, draft: &CreateStockMovement, date: i64) -> (r: Result<
        StockMovement,
        LedgerError,
    >)
        requires
            old(self).wf(),
        ensures
            final(self).wf(),
            match record_outcome(old(self)@, *draft, date) {
                Err(e) => r == Err::<StockMovement, LedgerError>(e) && final(self)@ == old(self)@
                    && final(self).projection() == old(self).projection(),
                Ok(m) => r == Ok::<StockMovement, LedgerError>(m) && final(self)@ == old(self)@.insert(insertion_point(old(self)@, date), m),
            },
    {
        let variant_id: u128 = draft.variant_id;
        let warehouse_id: u128 = draft.warehouse_id;
        if draft.quantity == 0 {
            return Err(LedgerError::Validation(ValidationError::ZeroQuantity));
        }
        let given: u64 = match draft.unit_cost {
            Some(cost) => cost,
            None => {
                if draft.quantity > 0 {
                    return Err(LedgerError::Validation(ValidationError::MissingUnitCost));
                }
                0
            },
        };
        let n: usize = self.log.len();
        let p: usize = self.find_insertion_point(date);
        let row: Option<usize> = self.find_row(variant_id, warehouse_id);
        let empty = Balance { quantity: 0, weighted_avg_cost: 0 };
        proof {
            self.lemma_cell_replays(variant_id, warehouse_id);
            assert(self@.subrange(0, p as int) =~= self@.take(p as int));
            assert(self@.subrange(p as int, n as int) =~= self@.skip(p as int));
            if p < n {
                if cell_balance(self@.take(p as int), variant_id, warehouse_id) is Err {
                    lemma_replay_stays_stopped(
                        empty_balance(),
                        self@,
                        p as int,
                        variant_id,
                        warehouse_id,
                    );
                }
            } else {
                assert(self@.take(p as int) =~= self@);
            }
        }
        let before: Balance = if p == n {
            match row {
                Some(c) => Balance {
                    quantity: self.cells[c].quantity,
                    weighted_avg_cost: self.cells[c].weighted_avg_cost,
                },
                None => empty,
            }
        } else {
            match replay_range(&self.log, 0, p, empty, variant_id, warehouse_id) {
                Ok(b) => b,
                Err(_) => empty,
            }
        };
        let unit_cost: u64 = if draft.quantity > 0 {
            given
        } else {
            before.weighted_avg_cost
        };
        let m = StockMovement {
            id: n as u64,
            company_id: draft.company_id,
            variant_id,
            warehouse_id,
            quantity: draft.quantity,
            movement_type: draft.movement_type,
            reference_type: draft.reference_type,
            reference_id: draft.reference_id,
            unit_cost,
            movement_date: date,
        };
        let after: Balance = match apply(before, &m) {
            Ok(b) => b,
            Err(ReplayFault::Negative { projected: _ }) => {
                return Err(
                    LedgerError::Consistency(
                        ConsistencyError::InsufficientStock {
                            available: before.quantity as u64,
                            requested: outbound_size(draft.quantity),
                        },
                    ),
                );
            },
            Err(ReplayFault::Overflow) => {
                return Err(LedgerError::Validation(ValidationError::AmountOverflow));
            },
        };
        let last: Balance = match replay_range(&self.log, p, n, after, variant_id, warehouse_id) {
            Ok(b) => b,
            Err(ReplayFault::Negative { projected }) => {
                return Err(
                    LedgerError::Consistency(
                        ConsistencyError::NegativeBalanceProjected { projected },
                    ),
                );
            },
            Err(ReplayFault::Overflow) => {
                return Err(LedgerError::Validation(ValidationError::AmountOverflow));
            },
        };
        let ghost found: Option<int> = match row {
            Some(c) => Some(c as int),
            None => None,
        };
        self.log.insert(p, m);
        match row {
            Some(c) => {
                self.cells[c].quantity = last.quantity;
                self.cells[c].weighted_avg_cost = last.weighted_avg_cost;
            },
            None => {
                self.cells.push(
                    StockLedger {
                        variant_id,
                        warehouse_id,
                        quantity: last.quantity,
                        weighted_avg_cost: last.weighted_avg_cost,
                    },
                );
            },
        }
        proof {
            let row_now = StockLedger {
                variant_id,
                warehouse_id,
                quantity: last.quantity,
                weighted_avg_cost: last.weighted_avg_cost,
            };
            match row {
                Some(c) => {
                    assert(self.projection() =~= old(self).projection().update(c as int, row_now));
                },
                None => {
                    assert(self.projection() =~= old(self).projection().push(row_now));
                },
            }
            lemma_replay_insert(old(self)@, p as int, m, variant_id, warehouse_id);
            lemma_insert_keeps_log(old(self)@, p as int, m);
            lemma_insert_keeps_rows(
                old(self)@,
                old(self).projection(),
                self.projection(),
                p as int,
                m,
                found,
                last,
            );
        }
        Ok(m)
    }
}

/// The draft that a recorded movement came from: what goes out carries
/// no unit cost, since the ledger computes it.
pub open spec fn draft_of(m: StockMovement) -> CreateStockMovement {
    CreateStockMovement {
        company_id: m.company_id,
        variant_id: m.variant_id,
        warehouse_id: m.warehouse_id,
        quantity: m.quantity,
        movement_type: m.movement_type,
        reference_type: m.reference_type,
        reference_id: m.reference_id,
        unit_cost: if m.quantity > 0 {
            Some(m.unit_cost)
        } else {
            None
        },
    }
}

/// The log that recording `rows` one after the other builds up from
/// nothing, each under its own date, or the error of the first that is
/// refused.
pub open spec fn rebuilt_log(rows: Seq<StockMovement>) -> Result<Seq<StockMovement>, LedgerError>
    decreases rows.len(),
{
    if rows.len() == 0 {
        Ok(Seq::empty())
    } else {
        match rebuilt_log(rows.drop_last()) {
            Err(e) => Err(e),
            Ok(log) => match record_outcome(
                log,
                draft_of(rows.last()),
                rows.last().movement_date,
            ) {
                Err(e) => Err(e),
                Ok(m) => Ok(log.insert(insertion_point(log, rows.last().movement_date), m)),
            },
        }
    }
}

/// A rebuild that has failed within a prefix has failed for the whole.
proof fn lemma_rebuild_stays_failed(rows: Seq<StockMovement>, k: int)
    requires
        0 <= k <= rows.len(),
        rebuilt_log(rows.take(k)) is Err,
    ensures
        rebuilt_log(rows) == rebuilt_log(rows.take(k)),
    decreases rows.len() - k,
{
    if k < rows.len() {
        assert(rows.take(k + 1).drop_last() =~= rows.take(k));
        lemma_rebuild_stays_failed(rows, k + 1);
    } else {
        assert(rows.take(k) =~= rows);
    }
}

impl Inventory {
    /// Rebuilds a ledger from stored movements by recording them again in
    /// the order given, each under its stored date. Given the movements in
    /// the order in which they were first recorded, this is the ledger that
    /// recorded them.
    ///
    /// Fails with the error of the first movement that is refused.
    pub fn rebuild(rows: &Vec<StockMovement>) -> (r: Result<Inventory, LedgerError>)
        ensures
            match rebuilt_log(rows@) {
                Err(e) => r matches Err(x) && x == e,
                Ok(log) => r matches Ok(inventory) && inventory.wf() && inventory@ == log,
            },
    {
        let mut inventory = Inventory::new();
        let mut i: usize = 0;
        proof {
            assert(rows@.take(0) =~= Seq::<StockMovement>::empty());
        }
        while i < rows.len()
            invariant
                i <= rows@.len(),
                inventory.wf(),
                rebuilt_log(rows@.take(i as int)) == Ok::<Seq<StockMovement>, LedgerError>(
                    inventory@,
                ),
            decreases rows.len() - i,
        {
            let row: StockMovement = rows[i];
            let draft = CreateStockMovement {
                company_id: row.company_id,
                variant_id: row.variant_id,
                warehouse_id: row.warehouse_id,
                quantity: row.quantity,
                movement_type: row.movement_type,
                reference_type: row.reference_type,
                reference_id: row.reference_id,
                unit_cost: if row.quantity > 0 {
                    Some(row.unit_cost)
                } else {
                    None
                },
            };
            proof {
                assert(rows@.take(i + 1).drop_last() =~= rows@.take(i as int));
                assert(rows@.take(i + 1).last() == row);
                assert(draft == draft_of(row));
            }
            match inventory.record_movement(&draft, row.movement_date) {
                Ok(_) => {},
                Err(e) => {
                    proof {
                        lemma_rebuild_stays_failed(rows@, i + 1);
                    }
                    return Err(e);
                },
            }
            i = i + 1;
        }
        proof {
            assert(rows@.take(i as int) =~= rows@);
        }
        Ok(inventory)
    }
}

/// A rebuild follows the recording: where some movements rebuild to a
/// log and a draft is recorded on that log, the movements with the new one
/// behind them rebuild to the log with the new one in it. So a ledger is
/// what its movements, taken in the order of their recording, rebuild to.
pub proof fn lemma_rebuild_follows_record(
    rows: Seq<StockMovement>,
    log: Seq<StockMovement>,
    draft: CreateStockMovement,
    date: i64,
)
    requires
        rebuilt_log(rows) == Ok::<Seq<StockMovement>, LedgerError>(log),
        record_outcome(log, draft, date) is Ok,
    ensures
        rebuilt_log(rows.push(record_outcome(log, draft, date)->Ok_0)) == Ok::<
            Seq<StockMovement>,
            LedgerError,
        >(log.insert(insertion_point(log, date), record_outcome(log, draft, date)->Ok_0)),
{
    let m = record_outcome(log, draft, date)->Ok_0;
    assert(rows.push(m).drop_last() =~= rows);
    assert(rows.push(m).last() == m);
    assert(m.movement_date == date);
    assert(record_outcome(log, draft_of(m), date) == Ok::<StockMovement, LedgerError>(m));
}

/// A replay that starts at or above zero ends at or above zero.
proof fn lemma_replay_not_below_zero(
    start: Balance,
    log: Seq<StockMovement>,
    variant_id: u128,
    warehouse_id: u128,
)
    requires
        start.quantity >= 0,
        replay_from(start, log, variant_id, warehouse_id) is Ok,
    ensures
        replay_from(start, log, variant_id, warehouse_id)->Ok_0.quantity >= 0,
    decreases log.len(),
{
    if log.len() > 0 {
        lemma_replay_not_below_zero(start, log.drop_last(), variant_id, warehouse_id);
    }
}

/// Two replays of the same movements end as far apart in quantity as they
/// began.
proof fn lemma_replay_shift(
    a: Balance,
    b: Balance,
    log: Seq<StockMovement>,
    variant_id: u128,
    warehouse_id: u128,
)
    requires
        replay_from(a, log, variant_id, warehouse_id) is Ok,
        replay_from(b, log, variant_id, warehouse_id) is Ok,
    ensures
        replay_from(a, log, variant_id, warehouse_id)->Ok_0.quantity - replay_from(
            b,
            log,
            variant_id,
            warehouse_id,
        )->Ok_0.quantity == a.quantity - b.quantity,
    decreases log.len(),
{
    if log.len() > 0 {
        lemma_replay_shift(a, b, log.drop_last(), variant_id, warehouse_id);
    }
}

/// What the ledger keeps for a cell is what a replay of the log gives for
/// it: every row states the replayed balance of its cell, and a cell
/// without a row replays to nothing.
pub proof fn lemma_projection_is_replay(inventory: Inventory, variant_id: u128, warehouse_id: u128)
    requires
        inventory.wf(),
    ensures
        cell_balance(inventory@, variant_id, warehouse_id) is Ok,
        forall|c: int|
            0 <= c < inventory.projection().len() && (
            #[trigger] inventory.projection()[c]).variant_id == variant_id
                && inventory.projection()[c].warehouse_id == warehouse_id ==> cell_balance(
                inventory@,
                variant_id,
                warehouse_id,
            ) == Ok::<Balance, ReplayFault>(row_balance(inventory.projection()[c])),
        !has_row(inventory.projection(), variant_id, warehouse_id) ==> cell_balance(
            inventory@,
            variant_id,
            warehouse_id,
        ) == Ok::<Balance, ReplayFault>(empty_balance()),
{
    inventory.lemma_cell_replays(variant_id, warehouse_id);
}

/// What is to go out and exceeds what the cell holds now is refused,
/// whatever its date.
pub proof fn lemma_overdraw_is_refused(inventory: Inventory, draft: CreateStockMovement, date: i64)
    requires
        inventory.wf(),
        draft.quantity < 0,
        -draft.quantity > cell_balance(
            inventory@,
            draft.variant_id,
            draft.warehouse_id,
        )->Ok_0.quantity,
    ensures
        record_outcome(inventory@, draft, date) is Err,
{
    let log = inventory@;
    let v = draft.variant_id;
    let w = draft.warehouse_id;
    let p = insertion_point(log, date);
    lemma_insertion_point_in_range(log, date);
    inventory.lemma_cell_replays(v, w);
    let head = log.take(p);
    let tail = log.skip(p);
    assert(log =~= head + tail);
    lemma_replay_split(empty_balance(), head, tail, v, w);
    let before = cell_balance(head, v, w)->Ok_0;
    lemma_replay_not_below_zero(empty_balance(), head, v, w);
    let m = movement_of(draft, log.len() as u64, before.weighted_avg_cost, date);
    if apply_movement(before, m) is Ok {
        let after = apply_movement(before, m)->Ok_0;
        if replay_from(after, tail, v, w) is Ok {
            lemma_replay_shift(before, after, tail, v, w);
            lemma_replay_not_below_zero(after, tail, v, w);
        }
    }
}

/// A movement enters the log somewhere between its ends.
proof fn lemma_insertion_point_in_range(log: Seq<StockMovement>, date: i64)
    ensures
        0 <= insertion_point(log, date) <= log.len(),
    decreases log.len(),
{
    if log.len() > 0 {
        lemma_insertion_point_in_range(log.drop_last(), date);
    }
}

/// The log after the drafts were recorded one after the other under one
/// date, or the error of the first that is refused.
pub open spec fn batch_outcome(
    log: Seq<StockMovement>,
    drafts: Seq<CreateStockMovement>,
    date: i64,
) -> Result<Seq<StockMovement>, LedgerError>
    decreases drafts.len(),
{
    if drafts.len() == 0 {
        Ok(log)
    } else {
        match batch_outcome(log, drafts.drop_last(), date) {
            Err(e) => Err(e),
            Ok(l) => match record_outcome(l, drafts.last(), date) {
                Err(e) => Err(e),
                Ok(m) => Ok(l.insert(insertion_point(l, date), m)),
            },
        }
    }
}

/// The movements that the drafts of a batch become, in their order, where
/// none is refused.
pub open spec fn batch_movements(
    log: Seq<StockMovement>,
    drafts: Seq<CreateStockMovement>,
    date: i64,
) -> Seq<StockMovement>
    decreases drafts.len(),
{
    if drafts.len() == 0 {
        Seq::empty()
    } else {
        batch_movements(log, drafts.drop_last(), date).push(
            record_outcome(
                batch_outcome(log, drafts.drop_last(), date)->Ok_0,
                drafts.last(),
                date,
            )->Ok_0,
        )
    }
}

/// A batch that has failed within a prefix has failed for the whole.
proof fn lemma_batch_stays_failed(
    log: Seq<StockMovement>,
    drafts: Seq<CreateStockMovement>,
    date: i64,
    k: int,
)
    requires
        0 <= k <= drafts.len(),
        batch_outcome(log, drafts.take(k), date) is Err,
    ensures
        batch_outcome(log, drafts, date) == batch_outcome(log, drafts.take(k), date),
    decreases drafts.len() - k,
{
    if k < drafts.len() {
        assert(drafts.take(k + 1).drop_last() =~= drafts.take(k));
        lemma_batch_stays_failed(log, drafts, date, k + 1);
    } else {
        assert(drafts.take(k) =~= drafts);
    }
}

/// The place where nothing behind is dated up to `date`, and what stands
/// just before is, is the insertion point.
proof fn lemma_insertion_point_is(log: Seq<StockMovement>, date: i64, q: int)
    requires
        0 <= q <= log.len(),
        forall|j: int| q <= j < log.len() ==> (#[trigger] log[j]).movement_date > date,
        q > 0 ==> log[q - 1].movement_date <= date,
    ensures
        insertion_point(log, date) == q,
    decreases log.len(),
{
    if log.len() > q {
        assert(log[log.len() - 1].movement_date > date);
        lemma_insertion_point_is(log.drop_last(), date, q);
    }
}

/// Where the movements of a batch stand one behind the other, the next
/// one enters behind the last.
proof fn lemma_batch_step(
    before: Seq<StockMovement>,
    moved: Seq<StockMovement>,
    position: int,
    date: i64,
    m: StockMovement,
)
    requires
        0 <= position <= before.len(),
        forall|j: int| position <= j < before.len() ==> (#[trigger] before[j]).movement_date > date,
        forall|j: int| 0 <= j < moved.len() ==> (#[trigger] moved[j]).movement_date == date,
        position > 0 ==> before[position - 1].movement_date <= date,
    ensures
        insertion_point(before.take(position) + moved + before.skip(position), date) == position
            + moved.len(),
        (before.take(position) + moved + before.skip(position)).insert(
            position + moved.len(),
            m,
        ) == before.take(position) + moved.push(m) + before.skip(position),
{
    let current = before.take(position) + moved + before.skip(position);
    let q = position + moved.len();
    assert forall|j: int| q <= j < current.len() implies (#[trigger] current[j]).movement_date
        > date by {
        assert(current[j] == before[j - moved.len()]);
    }
    if q > 0 {
        if moved.len() > 0 {
            assert(current[q - 1] == moved[moved.len() - 1]);
        } else {
            assert(current[q - 1] == before[position - 1]);
        }
    }
    lemma_insertion_point_is(current, date, q);
    assert(current.insert(q, m) =~= before.take(position) + moved.push(m) + before.skip(position));
}

/// What a batch has recorded, kept so that it can be taken back.
pub struct Batch {
    position: usize,
    movements: Vec<StockMovement>,
    rows: Vec<StockLedger>,
    log_before: Ghost<Seq<StockMovement>>,
}

impl Batch {
    /// The movements of the batch, in the order of its drafts.
    pub closed spec fn recorded(&self) -> Seq<StockMovement> {
        self.movements@
    }

    /// The log as it was before the batch.
    pub closed spec fn log_before(&self) -> Seq<StockMovement> {
        self.log_before@
    }

    /// The rows as they were before the batch.
    pub closed spec fn rows_before(&self) -> Seq<StockLedger> {
        self.rows@
    }

    /// Whether `log` is the log before the batch with the batch's
    /// movements in it, and nothing else.
    pub closed spec fn covers(&self, log: Seq<StockMovement>) -> bool {
        &&& self.position <= self.log_before@.len()
        &&& log == self.log_before@.take(self.position as int) + self.movements@
            + self.log_before@.skip(self.position as int)
    }

    /// The movements of the batch, in the order of its drafts.
    pub fn movements(&self) -> (r: &Vec<StockMovement>)
        ensures
            r@ == self.recorded(),
    {
        &self.movements
    }
}

impl Inventory {
    /// Takes `count` movements out of the log from `position` on and puts
    /// the rows back.
    fn undo(
        &mut self,
        position: usize,
        count: usize,
        rows: Vec<StockLedger>,
        Ghost(before): Ghost<Seq<StockMovement>>,
        Ghost(added): Ghost<Seq<StockMovement>>,
    )
        requires
            position <= before.len(),
            added.len() == count,
            old(self)@ == before.take(position as int) + added + before.skip(position as int),
        ensures
            final(self)@ == before,
            final(self).projection() == rows@,
    {
        let mut j: usize = 0;
        proof {
            assert(added.skip(0) =~= added);
        }
        while j < count
            invariant
                j <= count == added.len(),
                position <= before.len(),
                self.log@ == before.take(position as int) + added.skip(j as int) + before.skip(
                    position as int,
                ),
            decreases count - j,
        {
            let ghost prev = self.log@;
            self.log.remove(position);
            proof {
                assert(self.log@ =~= before.take(position as int) + added.skip(j + 1)
                    + before.skip(position as int));
            }
            j = j + 1;
        }
        proof {
            assert(self.log@ =~= before);
        }
        self.cells = rows;
    }

    /// Records the drafts one after the other under one date, all of them or
    /// none: where one is refused, those before it are taken back, and the
    /// ledger is as it was.
    pub fn record_all(&mut self, drafts: &Vec<CreateStockMovement>, date: i64) -> (r: Result<
        Batch,
        LedgerError,
    >)
        requires
            old(self).wf(),
        ensures
            final(self).wf(),
            match batch_outcome(old(self)@, drafts@, date) {
                Err(e) => r matches Err(x) && x == e && final(self)@ == old(self)@ && final(self).projection() == old(self).projection(),
                Ok(log) => r matches Ok(batch) && final(self)@ == log && batch.recorded()
                    == batch_movements(old(self)@, drafts@, date) && batch.covers(final(self)@)
                    && batch.log_before() == old(self)@ && batch.rows_before() == old(self).projection(),
            },
    {
        let ghost before = self@;
        let position: usize = self.find_insertion_point(date);
        let mut rows: Vec<StockLedger> = Vec::new();
        let mut c: usize = 0;
        while c < self.cells.len()
            invariant
                c <= self.cells@.len(),
                rows@ == self.cells@.take(c as int),
            decreases self.cells.len() - c,
        {
            rows.push(self.cells[c]);
            proof {
                assert(rows@ =~= self.cells@.take(c + 1));
            }
            c = c + 1;
        }
        proof {
            assert(self.cells@.take(c as int) =~= self.cells@);
            assert(drafts@.take(0) =~= Seq::<CreateStockMovement>::empty());
            assert(before =~= before.take(position as int) + Seq::<StockMovement>::empty()
                + before.skip(position as int));
        }
        let mut moved: Vec<StockMovement> = Vec::new();
        let mut i: usize = 0;
        while i < drafts.len()
            invariant
                i <= drafts@.len(),
                self.wf(),
                before == old(self)@,
                rows@ == old(self).projection(),
                state_wf(before, rows@),
                position <= before.len(),
                moved@.len() == i,
                forall|j: int|
                    position <= j < before.len() ==> (#[trigger] before[j]).movement_date > date,
                forall|j: int| 0 <= j < i ==> (#[trigger] moved@[j]).movement_date == date,
                position > 0 ==> before[position - 1].movement_date <= date,
                self@ == before.take(position as int) + moved@ + before.skip(position as int),
                batch_outcome(before, drafts@.take(i as int), date) == Ok::<
                    Seq<StockMovement>,
                    LedgerError,
                >(self@),
                moved@ == batch_movements(before, drafts@.take(i as int), date),
            decreases drafts.len() - i,
        {
            let ghost current = self@;
            let ghost earlier = moved@;
            proof {
                assert(drafts@.take(i + 1).drop_last() =~= drafts@.take(i as int));
                assert(drafts@.take(i + 1).last() == drafts@[i as int]);
            }
            match self.record(&drafts[i], date) {
                Ok(m) => {
                    moved.push(m);
                    proof {
                        lemma_batch_step(before, earlier, position as int, date, m);
                    }
                },
                Err(e) => {
                    proof {
                        lemma_batch_stays_failed(before, drafts@, date, i + 1);
                    }
                    self.undo(position, i, rows, Ghost(before), Ghost(moved@));
                    return Err(e);
                },
            }
            i = i + 1;
        }
        proof {
            assert(drafts@.take(i as int) =~= drafts@);
        }
        Ok(Batch { position, movements: moved, rows, log_before: Ghost(before) })
    }

    /// Takes back a batch: the log and the rows are again what they were
    /// before it.
    pub fn revert(&mut self, batch: Batch)
        requires
            batch.covers(old(self)@),
            state_wf(batch.log_before(), batch.rows_before()),
        ensures
            final(self).wf(),
            final(self)@ == batch.log_before(),
            final(self).projection() == batch.rows_before(),
    {
        let count: usize = batch.movements.len();
        let ghost before = batch.log_before@;
        let ghost added = batch.movements@;
        self.undo(batch.position, count, batch.rows, Ghost(before), Ghost(added));
    }
}

impl MovementType {
    /// The name under which the database stores this kind of movement.
    pub open spec fn spec_name(self) -> Seq<char> {
        match self {
            MovementType::Purchase => "purchase"@,
            MovementType::Sale => "sale"@,
            MovementType::Transfer => "transfer"@,
            MovementType::Adjustment => "adjustment"@,
        }
    }

    /// The name under which the database stores this kind of movement.
    pub fn name(self) -> (r: &'static str)
        ensures
            r@ == self.spec_name(),
    {
        match self {
            MovementType::Purchase => "purchase",
            MovementType::Sale => "sale",
            MovementType::Transfer => "transfer",
            MovementType::Adjustment => "adjustment",
        }
    }

    /// The kind of movement that the database stores under `name`, if it is one.
    pub fn from_name(name: &str) -> (r: Option<MovementType>)
        ensures
            match r {
                Some(t) => t.spec_name() == name@,
                None => forall|t: MovementType| t.spec_name() != name@,
            },
    {
        if same_text(name, "purchase") {
            Some(MovementType::Purchase)
        } else if same_text(name, "sale") {
            Some(MovementType::Sale)
        } else if same_text(name, "transfer") {
            Some(MovementType::Transfer)
        } else if same_text(name, "adjustment") {
            Some(MovementType::Adjustment)
        } else {
            None
        }
    }

    /// No two of the names are the same.
    pub proof fn lemma_names_differ(a: MovementType, b: MovementType)
        requires
            a != b,
        ensures
            a.spec_name() != b.spec_name(),
    {
        reveal_strlit("purchase");
        reveal_strlit("sale");
        reveal_strlit("transfer");
        reveal_strlit("adjustment");
        let x = a.spec_name();
        let y = b.spec_name();
        if x.len() == y.len() {
            assert(x[0] != y[0] || x[1] != y[1]);
        }
    }
}

impl ReferenceType {
    /// The name under which the database stores this kind of document.
    pub open spec fn spec_name(self) -> Seq<char> {
        match self {
            ReferenceType::SalesOrder => "sales_order"@,
            ReferenceType::PurchaseOrder => "purchase_order"@,
            ReferenceType::Other => "other"@,
        }
    }

    /// The name under which the database stores this kind of document.
    pub fn name(self) -> (r: &'static str)
        ensures
            r@ == self.spec_name(),
    {
        match self {
            ReferenceType::SalesOrder => "sales_order",
            ReferenceType::PurchaseOrder => "purchase_order",
            ReferenceType::Other => "other",
        }
    }

    /// The kind of document that the database stores under `name`; a name that is
    /// none of the known ones stands for `Other`.
    pub fn from_name(name: &str) -> (r: ReferenceType)
        ensures
            r != ReferenceType::Other ==> r.spec_name() == name@,
            r == ReferenceType::Other ==> !(name@ == "sales_order"@ || name@ == "purchase_order"@),
    {
        if same_text(name, "sales_order") {
            ReferenceType::SalesOrder
        } else if same_text(name, "purchase_order") {
            ReferenceType::PurchaseOrder
        } else {
            ReferenceType::Other
        }
    }

    /// No two of the names are the same.
    pub proof fn lemma_names_differ(a: ReferenceType, b: ReferenceType)
        requires
            a != b,
        ensures
            a.spec_name() != b.spec_name(),
    {
        reveal_strlit("sales_order");
        reveal_strlit("purchase_order");
        reveal_strlit("other");
        let x = a.spec_name();
        let y = b.spec_name();
        if x.len() == y.len() {
            assert(x[0] != y[0] || x[1] != y[1]);
        }
    }
}

} // verus!

//! What the steps of a projection leave alone.

use crate::events::EventV;
use crate::json::{list, num, opt_txt, txt, JsonV};
use crate::model::{
    add_allocation, add_consumption, add_lot, add_purchase_line, add_return_line, add_sale_line,
    adjust_lot, adjust_outstanding, adjust_party, allocate_from, allocation, consume_from,
    consumed_by, consumption, given_lines_from, line_id, move_lots_from, opening_lots_from, post,
    product, purchase_line, purchase_lines_from, purchase_return_lines_from, purchased_lot,
    reopen_from, restock_from, revert_balances, revert_lots, sale_line, sale_lines_from,
    sale_return_lines_from, settle_from, stocked_lot, unallocate_from, unconsume_from,
    unreturn_from, worth, Text,
};
use crate::tables::{ReadModel, ReturnLine, SaleLine};
use vstd::prelude::*;

verus! {

pub proof fn keeps_purchase_lines(m: ReadModel, ev: EventV, lines: Seq<JsonV>, i: int)
    ensures
        purchase_lines_from(m, ev, lines, i) matches Ok(n) ==> n.journal == m.journal && n.accounts
            == m.accounts && n.balances == m.balances && n.sales == m.sales
            && n.purchases == m.purchases && n.consumptions == m.consumptions
            && n.sale_lines == m.sale_lines,
    decreases lines.len() - i,
{
    if i < lines.len() {
        let o = add_purchase_line(
            add_lot(Ok(m), purchased_lot(ev, lines[i])),
            purchase_line(ev, lines[i], i as nat),
        );
        if let Ok(n) = o {
            keeps_purchase_lines(n, ev, lines, i + 1);
        }
    }
}

pub proof fn keeps_consume(m: ReadModel, ev: EventV, line: nat, parts: Seq<JsonV>, j: int)
    ensures
        consume_from(m, ev, line, parts, j) matches Ok(n) ==> n.journal == m.journal && n.accounts
            == m.accounts && n.balances == m.balances && n.sales == m.sales
            && n.purchases == m.purchases,
    decreases parts.len() - j,
{
    if j < parts.len() {
        let o = adjust_lot(
            add_consumption(Ok(m), consumption(ev, line, parts[j], j as nat)),
            txt(parts[j], "lotId"@),
            -num(parts[j], "qtyTaken"@),
        );
        if let Ok(n) = o {
            keeps_consume(n, ev, line, parts, j + 1);
        }
    }
}

pub proof fn keeps_sale_lines(m: ReadModel, ev: EventV, lines: Seq<JsonV>, i: int)
    ensures
        sale_lines_from(m, ev, lines, i) matches Ok(n) ==> n.journal == m.journal && n.accounts
            == m.accounts && n.balances == m.balances && n.sales == m.sales
            && n.purchases == m.purchases,
    decreases lines.len() - i,
{
    if i < lines.len() {
        let parts = list(lines[i], "lotConsumption"@);
        if let Ok(n) = sale_line(m, ev, lines[i], i as nat) {
            let row = SaleLine {
                id: line_id(ev.id, i as nat),
                sale_id: txt(ev.payload, "saleId"@),
                item_id: txt(lines[i], "itemId"@),
                qty: num(lines[i], "qty"@),
                unit_price_minor: num(lines[i], "unitPriceMinor"@),
                revenue_minor: product(
                    num(lines[i], "qty"@),
                    num(lines[i], "unitPriceMinor"@),
                )->0,
                cogs_minor: worth(parts, "qtyTaken"@, "unitCostMinor"@)->0,
                date: txt(ev.payload, "date"@),
            };
            keeps_consume(add_sale_line(Ok(m), row)->Ok_0, ev, i as nat, parts, 0);
            keeps_sale_lines(n, ev, lines, i + 1);
        }
    }
}

pub proof fn keeps_settle(
    m: ReadModel,
    ev: EventV,
    incoming: bool,
    party: Text,
    parts: Seq<JsonV>,
    i: int,
)
    ensures
        settle_from(m, ev, incoming, party, parts, i) matches Ok(n) ==> n.journal == m.journal
            && n.accounts == m.accounts && n.lots == m.lots && n.consumptions == m.consumptions
            && n.sale_lines == m.sale_lines,
    decreases parts.len() - i,
{
    if i < parts.len() {
        let target = txt(
            parts[i],
            if incoming {
                "saleId"@
            } else {
                "purchaseId"@
            },
        );
        let amount = num(parts[i], "amountMinor"@);
        let kind = if incoming {
            "sale"@
        } else {
            "purchase"@
        };
        let o = add_allocation(
            Ok(m),
            allocation(ev, i as nat, txt(ev.payload, "paymentId"@), target, kind, amount),
        );
        let o = adjust_outstanding(o, incoming, target, -amount);
        let o = if incoming {
            adjust_party(o, party, -amount, 0, 0, 0)
        } else {
            adjust_party(o, party, 0, -amount, 0, 0)
        };
        if let Ok(n) = o {
            keeps_settle(n, ev, incoming, party, parts, i + 1);
        }
    }
}

pub proof fn keeps_allocate(m: ReadModel, ev: EventV, parts: Seq<JsonV>, i: int)
    ensures
        allocate_from(m, ev, parts, i) matches Ok(n) ==> n.journal == m.journal && n.accounts
            == m.accounts && n.lots == m.lots && n.consumptions == m.consumptions
            && n.sale_lines == m.sale_lines,
    decreases parts.len() - i,
{
    if i < parts.len() {
        let party = txt(ev.payload, "partyId"@);
        let target = txt(parts[i], "targetId"@);
        let kind = txt(parts[i], "targetType"@);
        let amount = num(parts[i], "amountMinor"@);
        let sale = kind == "sale"@;
        let o = add_allocation(
            Ok(m),
            allocation(ev, i as nat, txt(ev.payload, "paymentId"@), target, kind, amount),
        );
        let o = adjust_outstanding(o, sale, target, -amount);
        let o = if sale {
            adjust_party(o, party, -amount, 0, -amount, 0)
        } else {
            adjust_party(o, party, 0, -amount, 0, -amount)
        };
        if let Ok(n) = o {
            keeps_allocate(n, ev, parts, i + 1);
        }
    }
}

pub proof fn keeps_restock(m: ReadModel, ev: EventV, line: JsonV, parts: Seq<JsonV>, j: int, n: int)
    ensures
        restock_from(m, ev, line, parts, j, n) matches Ok(k) ==> k.journal == m.journal
            && k.accounts == m.accounts && k.balances == m.balances && k.sales == m.sales
            && k.purchases == m.purchases && k.consumptions == m.consumptions
            && k.sale_lines == m.sale_lines,
    decreases parts.len() - j,
{
    if j < parts.len() && n + j < u64::MAX {
        let part = parts[j];
        let o = add_return_line(
            adjust_lot(Ok(m), txt(part, "lotId"@), num(part, "qtyReturned"@) as int),
            ReturnLine {
                id: line_id(ev.id, (n + j) as nat),
                return_id: txt(ev.payload, "returnId"@),
                item_id: txt(line, "itemId"@),
                qty: num(part, "qtyReturned"@),
                unit_price_minor: num(line, "unitPriceMinor"@),
                unit_cost_minor: num(part, "unitCostMinor"@),
                lot_id: txt(part, "lotId"@),
            },
        );
        if let Ok(k) = o {
            keeps_restock(k, ev, line, parts, j + 1, n);
        }
    }
}

pub proof fn keeps_sale_return_lines(m: ReadModel, ev: EventV, lines: Seq<JsonV>, i: int, n: int)
    ensures
        sale_return_lines_from(m, ev, lines, i, n) matches Ok(k) ==> k.journal == m.journal
            && k.accounts == m.accounts && k.balances == m.balances && k.sales == m.sales
            && k.purchases == m.purchases && k.consumptions == m.consumptions
            && k.sale_lines == m.sale_lines,
    decreases lines.len() - i,
{
    if i < lines.len() {
        let parts = list(lines[i], "lotReturns"@);
        keeps_restock(m, ev, lines[i], parts, 0, n);
        if let Ok(k) = restock_from(m, ev, lines[i], parts, 0, n) {
            keeps_sale_return_lines(k, ev, lines, i + 1, n + parts.len());
        }
    }
}

pub proof fn keeps_purchase_return_lines(m: ReadModel, ev: EventV, lines: Seq<JsonV>, i: int)
    ensures
        purchase_return_lines_from(m, ev, lines, i) matches Ok(k) ==> k.journal == m.journal
            && k.accounts == m.accounts && k.balances == m.balances && k.sales == m.sales
            && k.purchases == m.purchases && k.consumptions == m.consumptions
            && k.sale_lines == m.sale_lines,
    decreases lines.len() - i,
{
    if i < lines.len() {
        let line = lines[i];
        let o = add_return_line(
            adjust_lot(Ok(m), txt(line, "lotId"@), -num(line, "qty"@)),
            ReturnLine {
                id: line_id(ev.id, i as nat),
                return_id: txt(ev.payload, "returnId"@),
                item_id: txt(line, "itemId"@),
                qty: num(line, "qty"@),
                unit_price_minor: 0,
                unit_cost_minor: num(line, "unitCostMinor"@),
                lot_id: txt(line, "lotId"@),
            },
        );
        if let Ok(k) = o {
            keeps_purchase_return_lines(k, ev, lines, i + 1);
        }
    }
}

pub proof fn keeps_opening_lots(m: ReadModel, ev: EventV, lots: Seq<JsonV>, i: int)
    ensures
        opening_lots_from(m, ev, lots, i) matches Ok(n) ==> n.journal == m.journal && n.accounts
            == m.accounts && n.balances == m.balances && n.sales == m.sales
            && n.consumptions == m.consumptions && n.sale_lines == m.sale_lines,
    decreases lots.len() - i,
{
    if i < lots.len() {
        let o = add_lot(Ok(m), stocked_lot(ev, lots[i], opt_txt(lots[i], "supplierId"@)));
        if let Ok(n) = o {
            keeps_opening_lots(n, ev, lots, i + 1);
        }
    }
}

pub proof fn keeps_unconsume(m: ReadModel, sale: Text, i: int)
    ensures
        unconsume_from(m, sale, i) matches Ok(n) ==> n == (ReadModel { lots: n.lots, ..m }),
    decreases m.consumptions.len() - i,
{
    if i < m.consumptions.len() {
        if !consumed_by(m, m.consumptions[i], sale) {
            keeps_unconsume(m, sale, i + 1);
        } else {
            let o = adjust_lot(
                Ok(m),
                m.consumptions[i].lot_id,
                m.consumptions[i].qty_taken as int,
            );
            if let Ok(n) = o {
                if n.consumptions.len() == m.consumptions.len() {
                    keeps_unconsume(n, sale, i + 1);
                }
            }
        }
    }
}

pub proof fn keeps_move_lots(m: ReadModel, lines: Seq<JsonV>, key: Text, up: bool, i: int)
    ensures
        move_lots_from(m, lines, key, up, i) matches Ok(n) ==> n == (ReadModel {
            lots: n.lots,
            ..m
        }),
    decreases lines.len() - i,
{
    if i < lines.len() {
        let amount = num(lines[i], key);
        let delta = if up {
            amount as int
        } else {
            -amount
        };
        if let Ok(n) = adjust_lot(Ok(m), txt(lines[i], "lotId"@), delta) {
            keeps_move_lots(n, lines, key, up, i + 1);
        }
    }
}

pub proof fn keeps_unreturn(m: ReadModel, lines: Seq<JsonV>, i: int)
    ensures
        unreturn_from(m, lines, i) matches Ok(n) ==> n == (ReadModel { lots: n.lots, ..m }),
    decreases lines.len() - i,
{
    if i < lines.len() {
        let parts = list(lines[i], "lotReturns"@);
        keeps_move_lots(m, parts, "qtyReturned"@, false, 0);
        if let Ok(n) = move_lots_from(m, parts, "qtyReturned"@, false, 0) {
            keeps_unreturn(n, lines, i + 1);
        }
    }
}

pub proof fn keeps_revert_lots(m: ReadModel, target: EventV)
    ensures
        revert_lots(Ok(m), target) matches Ok(n) ==> n == (ReadModel { lots: n.lots, ..m }),
{
    let tp = target.payload;
    keeps_unconsume(m, txt(tp, "saleId"@), 0);
    keeps_move_lots(m, list(tp, "lines"@), "qty"@, true, 0);
    keeps_move_lots(m, list(tp, "lines"@), "qtyDelta"@, false, 0);
    keeps_unreturn(m, list(tp, "lines"@), 0);
}

pub proof fn keeps_reopen(m: ReadModel, event: Text, i: int)
    ensures
        reopen_from(m, event, i) matches Ok(n) ==> n == (ReadModel {
            sales: n.sales,
            purchases: n.purchases,
            ..m
        }),
    decreases m.allocations.len() - i,
{
    if i < m.allocations.len() {
        let a = m.allocations[i];
        if a.event_id != event {
            keeps_reopen(m, event, i + 1);
        } else {
            let o = adjust_outstanding(
                Ok(m),
                a.target_type == "sale"@,
                a.target_id,
                a.amount_minor as int,
            );
            if let Ok(n) = o {
                if n.allocations.len() == m.allocations.len() {
                    keeps_reopen(n, event, i + 1);
                }
            }
        }
    }
}

pub proof fn keeps_unallocate(m: ReadModel, event: Text, party: Text, i: int)
    ensures
        unallocate_from(m, event, party, i) matches Ok(n) ==> n == (ReadModel {
            balances: n.balances,
            ..m
        }),
    decreases m.allocations.len() - i,
{
    if i < m.allocations.len() {
        if m.allocations[i].event_id != event {
            keeps_unallocate(m, event, party, i + 1);
        } else {
            let amount = m.allocations[i].amount_minor as int;
            let o = if m.allocations[i].target_type == "sale"@ {
                adjust_party(Ok(m), party, amount, 0, amount, 0)
            } else {
                adjust_party(Ok(m), party, 0, amount, 0, amount)
            };
            if let Ok(n) = o {
                if n.allocations.len() == m.allocations.len() {
                    keeps_unallocate(n, event, party, i + 1);
                }
            }
        }
    }
}

pub proof fn keeps_revert_balances(m: ReadModel, target: EventV)
    ensures
        revert_balances(Ok(m), target) matches Ok(n) ==> n == (ReadModel {
            sales: n.sales,
            purchases: n.purchases,
            balances: n.balances,
            payments: n.payments,
            allocations: n.allocations,
            ..m
        }),
{
    let tp = target.payload;
    keeps_reopen(m, target.id, 0);
    if let Ok(n) = reopen_from(m, target.id, 0) {
        keeps_unallocate(n, target.id, txt(tp, "partyId"@), 0);
    }
}

pub proof fn keeps_given_lines(
    m: ReadModel,
    ev: EventV,
    lines: Seq<JsonV>,
    date: Text,
    memo: Text,
    i: int,
)
    ensures
        given_lines_from(m, ev, lines, date, memo, i) matches Ok(n) ==> n == (ReadModel {
            journal: n.journal,
            accounts: n.accounts,
            ..m
        }),
    decreases lines.len() - i,
{
    if i < lines.len() {
        let o = post(
            Ok(m),
            ev.id,
            ev.id,
            i as nat,
            txt(lines[i], "accountId"@),
            num(lines[i], "debitMinor"@),
            num(lines[i], "creditMinor"@),
            date,
            Some(memo),
        );
        if let Ok(n) = o {
            keeps_given_lines(n, ev, lines, date, memo, i + 1);
        }
    }
}

} // verus!

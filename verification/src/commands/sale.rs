//! Commands on sales.

use crate::commands::{
    carried_out, commit_event, judged, overflow, payload_of, refusal, reject, scene, CommandContext,
    CommandError, Refusal,
};
use crate::commands::guards::{
    amount_non_negative, at_least_one, available, check_amount_non_negative,
    check_at_least_one_line, check_invoice_not_reversed, check_lot_item_match, check_qty_positive,
    check_sale_return_over_restore, check_seeded_party_cash_only, check_terms, find_lot,
    find_party_kind, invoice_not_reversed, lot_item_match, party_kind, qty_positive, restored,
    sale_return_over_restore, seeded_party_cash_only, taken, terms_valid, unknown_lot, LotDemand,
    Verdict,
};
use crate::error::DbError;
use crate::events::LedgerEvent;
use crate::json::{elements_of, Fields, Json, JsonV};
use crate::model::{consumed_by, plus, product, Text};
use crate::rows::{find, lemma_rows_push, lookup, rows, Row};
use crate::sort::{sort, sorted, Ranked, RankedRow};
use crate::tables::{Lot, ReadModel, Tables};
use crate::text::{dec, decimal, same};
use vstd::prelude::*;
use vstd::string::*;

verus! {

/// One line of a sale, with the lots it is to be taken from where the seller chose
/// them.
#[derive(Debug)]
#[verifier::ext_equal]
pub struct SaleLineInput<S = String, P = Vec<(String, i64)>> {
    pub item_id: S,
    pub qty: i64,
    pub unit_price_minor: i64,
    pub lot_picks: Option<P>,
}

/// Lots and quantities by value.
pub open spec fn quantities(v: Seq<(String, i64)>) -> Seq<(Text, i64)> {
    Seq::new(v.len(), |i: int| (v[i].0@, v[i].1))
}

impl View for SaleLineInput {
    type V = SaleLineInput<Seq<char>, Seq<(Seq<char>, i64)>>;

    open spec fn view(&self) -> SaleLineInput<Seq<char>, Seq<(Seq<char>, i64)>> {
        SaleLineInput {
            item_id: self.item_id@,
            qty: self.qty,
            unit_price_minor: self.unit_price_minor,
            lot_picks: match self.lot_picks {
                Some(v) => Some(quantities(v@)),
                None => None,
            },
        }
    }
}

/// The mathematical value of a sale line.
pub type SaleLineV = SaleLineInput<Seq<char>, Seq<(Seq<char>, i64)>>;

/// Units taken out of a lot: which lot, how many, at what unit cost.
pub type PickV = (Seq<char>, i64, i64);

/// Picks by value.
pub open spec fn picks_of(v: Seq<(String, i64, i64)>) -> Seq<PickV> {
    Seq::new(v.len(), |i: int| (v[i].0@, v[i].1, v[i].2))
}

// ---- oldest lots first ----

impl Ranked for Lot<Seq<char>> {
    open spec fn rank(self) -> Seq<char> {
        self.acquired_at
    }
}

impl RankedRow for Lot {
    fn rank(&self) -> &str {
        self.acquired_at.as_str()
    }
}

/// Whether a lot is of the item and holds units.
pub open spec fn holding(item: Text) -> spec_fn(Lot<Text>) -> bool {
    |l: Lot<Text>| l.item_id == item && l.qty_remaining > 0
}

/// The lots of an item that hold units.
pub open spec fn stock(t: Seq<Lot<Text>>, item: Text) -> Seq<Lot<Text>> {
    t.filter(holding(item))
}

/// The lots of an item that hold units, oldest first, lots of one day by their id.
pub open spec fn oldest_first(t: Seq<Lot<Text>>, item: Text) -> Seq<Lot<Text>> {
    sorted(stock(t, item))
}

fn stock_of(t: &Vec<Lot>, item: &str) -> (r: Vec<Lot>)
    ensures
        rows(r@) == stock(rows(t@), item@),
{
    let ghost s = rows(t@);
    let ghost f = holding(item@);
    let mut out: Vec<Lot> = Vec::new();
    let mut i: usize = 0;
    proof {
        reveal(Seq::filter);
        assert(rows(out@) =~= s.take(0).filter(f));
    }
    while i < t.len()
        invariant
            i <= t@.len(),
            s == rows(t@),
            f == holding(item@),
            rows(out@) == s.take(i as int).filter(f),
        decreases t@.len() - i,
    {
        proof {
            reveal(Seq::filter);
            assert(s.take(i + 1).drop_last() =~= s.take(i as int));
            assert(s.take(i + 1).last() == t@[i as int]@);
        }
        if t[i].qty_remaining > 0 && same(t[i].item_id.as_str(), item) {
            let l = t[i].copy();
            proof {
                lemma_rows_push(out@, l);
            }
            out.push(l);
        }
        i += 1;
    }
    assert(s.take(s.len() as int) =~= s);
    out
}

/// The lots of an item that hold units, oldest first.
pub fn stock_by_age(t: &Tables, item_id: &str) -> (r: Vec<Lot>)
    ensures
        rows(r@) == oldest_first(t@.lots, item_id@),
{
    let held = stock_of(&t.lots, item_id);
    sort(&held)
}

/// Takes `need` units from lots in turn, from lot `i` on: from each as much as is
/// still needed and available.
pub open spec fn draw_from(
    m: ReadModel,
    d: Map<Text, i64>,
    lots: Seq<Lot<Text>>,
    item: Text,
    need: i64,
    i: int,
    picks: Seq<PickV>,
) -> Result<Seq<PickV>, Refusal>
    decreases lots.len() - i,
{
    if need == 0 || i >= lots.len() {
        if need > 0 {
            Err(
                refusal(
                    "insufficient stock for item "@ + item + ": short by "@ + dec(need as int),
                ),
            )
        } else {
            Ok(picks)
        }
    } else {
        match available(m, d, lots[i].id) {
            Err(e) => Err(e),
            Ok(usable) => if usable <= 0 {
                draw_from(m, d, lots, item, need, i + 1, picks)
            } else {
                let take = if need <= usable {
                    need
                } else {
                    usable
                };
                draw_from(
                    m,
                    d,
                    lots,
                    item,
                    (need - take) as i64,
                    i + 1,
                    picks.push((lots[i].id, take, lots[i].unit_cost_minor)),
                )
            },
        }
    }
}

/// Selects units of an item from its oldest lots.
fn select_oldest_first(t: &Tables, demand: &LotDemand, item_id: &str, qty: i64) -> (r: Result<
    Vec<(String, i64, i64)>,
    CommandError,
>)
    ensures
        match r {
            Ok(v) => draw_from(
                t@,
                demand@,
                oldest_first(t@.lots, item_id@),
                item_id@,
                qty,
                0,
                Seq::empty(),
            ) == Ok::<Seq<PickV>, Refusal>(picks_of(v@)),
            Err(e) => draw_from(
                t@,
                demand@,
                oldest_first(t@.lots, item_id@),
                item_id@,
                qty,
                0,
                Seq::empty(),
            ) == Err::<Seq<PickV>, Refusal>(e@),
        },
{
    let lots = stock_by_age(t, item_id);
    let ghost ls = rows(lots@);
    let mut need: i64 = qty;
    let mut picks: Vec<(String, i64, i64)> = Vec::new();
    let ghost goal = draw_from(t@, demand@, ls, item_id@, qty, 0, Seq::empty());
    assert(picks_of(picks@) =~= Seq::<PickV>::empty());
    let mut i: usize = 0;
    while i < lots.len() && need != 0
        invariant
            i <= lots@.len(),
            ls == rows(lots@),
            ls == oldest_first(t@.lots, item_id@),
            goal == draw_from(t@, demand@, ls, item_id@, qty, 0, Seq::empty()),
            draw_from(t@, demand@, ls, item_id@, need, i as int, picks_of(picks@)) == goal,
        decreases lots@.len() - i,
    {
        let lot = &lots[i];
        assert(ls[i as int] == lot@);
        let usable: i64 = demand.available(t, lot.id.as_str())?;
        if usable > 0 {
            let take: i64 = if need <= usable {
                need
            } else {
                usable
            };
            let ghost before = picks@;
            picks.push((lot.id.clone(), take, lot.unit_cost_minor));
            assert(picks_of(picks@) =~= picks_of(before).push(
                (lot@.id, take, lot@.unit_cost_minor),
            ));
            need = need - take;
        }
        i += 1;
    }
    if need > 0 {
        return Err(
            reject(
                "insufficient stock for item ".to_owned().concat(item_id).concat(
                    ": short by ",
                ).concat(decimal(need).as_str()),
            ),
        );
    }
    Ok(picks)
}

// ---- lots the seller chose ----

/// The sum of quantities.
pub open spec fn quantity_total(s: Seq<(Text, i64)>) -> Option<i64>
    decreases s.len(),
{
    if s.len() == 0 {
        Some(0)
    } else {
        plus(quantity_total(s.drop_last()), Some(s.last().1))
    }
}

fn total_quantity(v: &Vec<(String, i64)>) -> (r: Option<i64>)
    ensures
        r == quantity_total(quantities(v@)),
{
    let ghost s = quantities(v@);
    let mut total: Option<i64> = Some(0);
    let mut i: usize = 0;
    while i < v.len()
        invariant
            i <= v@.len(),
            s == quantities(v@),
            total == quantity_total(s.take(i as int)),
        decreases v@.len() - i,
    {
        assert(s.take(i + 1).drop_last() =~= s.take(i as int));
        assert(s.take(i + 1).last() == s[i as int]);
        total = match total {
            Some(x) => x.checked_add(v[i].1),
            None => None,
        };
        i += 1;
    }
    assert(s.take(s.len() as int) =~= s);
    total
}

/// The picks of chosen lots at their cost, from choice `i` on.
pub open spec fn chosen_from(
    m: ReadModel,
    choice: Seq<(Text, i64)>,
    i: int,
    picks: Seq<PickV>,
) -> Result<Seq<PickV>, Refusal>
    decreases choice.len() - i,
{
    if i >= choice.len() {
        Ok(picks)
    } else {
        match qty_positive(choice[i].1) {
            Err(e) => Err(e),
            Ok(_) => match lookup(m.lots, choice[i].0) {
                None => Err(unknown_lot(choice[i].0)),
                Some(l) => chosen_from(
                    m,
                    choice,
                    i + 1,
                    picks.push((choice[i].0, choice[i].1, l.unit_cost_minor)),
                ),
            },
        }
    }
}

/// The picks for a line: the chosen lots, which have to make up the quantity, or the
/// oldest.
pub open spec fn line_picks(m: ReadModel, d: Map<Text, i64>, l: SaleLineV) -> Result<
    Seq<PickV>,
    Refusal,
> {
    match l.lot_picks {
        Some(choice) => match quantity_total(choice) {
            None => Err(overflow()),
            Some(sum) => if sum != l.qty {
                Err(
                    refusal(
                        "lot picks for item "@ + l.item_id + " sum to "@ + dec(sum as int)
                            + ", expected qty "@ + dec(l.qty as int),
                    ),
                )
            } else {
                chosen_from(m, choice, 0, Seq::empty())
            },
        },
        None => draw_from(
            m,
            d,
            oldest_first(m.lots, l.item_id),
            l.item_id,
            l.qty,
            0,
            Seq::empty(),
        ),
    }
}

fn pick_lots(t: &Tables, demand: &LotDemand, l: &SaleLineInput) -> (r: Result<
    Vec<(String, i64, i64)>,
    CommandError,
>)
    requires
        l.qty > 0,
    ensures
        match r {
            Ok(v) => line_picks(t@, demand@, l@) == Ok::<Seq<PickV>, Refusal>(picks_of(v@)),
            Err(e) => line_picks(t@, demand@, l@) == Err::<Seq<PickV>, Refusal>(e@),
        },
{
    match &l.lot_picks {
        None => select_oldest_first(t, demand, l.item_id.as_str(), l.qty),
        Some(choice) => {
            let ghost c = quantities(choice@);
            let sum: i64 = match total_quantity(choice) {
                Some(v) => v,
                None => {
                    return Err(CommandError::Db(DbError::Overflow));
                },
            };
            if sum != l.qty {
                return Err(
                    reject(
                        "lot picks for item ".to_owned().concat(l.item_id.as_str()).concat(
                            " sum to ",
                        ).concat(decimal(sum).as_str()).concat(", expected qty ").concat(
                            decimal(l.qty).as_str(),
                        ),
                    ),
                );
            }
            let mut picks: Vec<(String, i64, i64)> = Vec::new();
            assert(picks_of(picks@) =~= Seq::<PickV>::empty());
            let mut i: usize = 0;
            while i < choice.len()
                invariant
                    i <= choice@.len(),
                    c == quantities(choice@),
                    line_picks(t@, demand@, l@) == chosen_from(
                        t@,
                        c,
                        i as int,
                        picks_of(picks@),
                    ),
                decreases choice@.len() - i,
            {
                let lot_id = choice[i].0.as_str();
                let take: i64 = choice[i].1;
                assert(c[i as int] == (lot_id@, take));
                check_qty_positive(take)?;
                let k: usize = find_lot(t, lot_id)?;
                let cost: i64 = t.lots[k].unit_cost_minor;
                let ghost before = picks@;
                picks.push((lot_id.to_owned(), take, cost));
                assert(picks_of(picks@) =~= picks_of(before).push((lot_id@, take, cost)));
                i += 1;
            }
            Ok(picks)
        },
    }
}

/// Claims picks for a line of an item, from pick `i` on.
pub open spec fn claimed_from(
    m: ReadModel,
    d: Map<Text, i64>,
    item: Text,
    picks: Seq<PickV>,
    i: int,
) -> Result<Map<Text, i64>, Refusal>
    decreases picks.len() - i,
{
    if i >= picks.len() {
        Ok(d)
    } else {
        match lot_item_match(m, picks[i].0, item) {
            Err(e) => Err(e),
            Ok(_) => match taken(m, d, picks[i].0, picks[i].1) {
                Err(e) => Err(e),
                Ok(d) => claimed_from(m, d, item, picks, i + 1),
            },
        }
    }
}

fn claim_picks(
    t: &Tables,
    demand: &mut LotDemand,
    item_id: &str,
    picks: &Vec<(String, i64, i64)>,
) -> (r: Result<(), CommandError>)
    ensures
        match r {
            Ok(_) => claimed_from(t@, old(demand)@, item_id@, picks_of(picks@), 0) == Ok::<
                Map<Text, i64>,
                Refusal,
            >(final(demand)@),
            Err(e) => claimed_from(t@, old(demand)@, item_id@, picks_of(picks@), 0) == Err::<
                Map<Text, i64>,
                Refusal,
            >(e@),
        },
{
    let ghost ps = picks_of(picks@);
    let mut i: usize = 0;
    while i < picks.len()
        invariant
            i <= picks@.len(),
            ps == picks_of(picks@),
            claimed_from(t@, demand@, item_id@, ps, i as int) == claimed_from(
                t@,
                old(demand)@,
                item_id@,
                ps,
                0,
            ),
        decreases picks@.len() - i,
    {
        assert(ps[i as int] == (picks@[i as int].0@, picks@[i as int].1, picks@[i as int].2));
        check_lot_item_match(t, picks[i].0.as_str(), item_id)?;
        demand.take(t, picks[i].0.as_str(), picks[i].1)?;
        i += 1;
    }
    Ok(())
}

/// What picks cost.
pub open spec fn picks_cost(s: Seq<PickV>) -> Option<i64>
    decreases s.len(),
{
    if s.len() == 0 {
        Some(0)
    } else {
        plus(picks_cost(s.drop_last()), product(s.last().1, s.last().2))
    }
}

pub open spec fn pick_json(p: PickV) -> JsonV {
    JsonV::Object(
        Map::empty().insert("lotId"@, JsonV::Str(p.0)).insert(
            "qtyTaken"@,
            JsonV::Int(p.1 as int),
        ).insert("unitCostMinor"@, JsonV::Int(p.2 as int)),
    )
}

pub open spec fn sale_line_json(
    l: SaleLineV,
    revenue: i64,
    cogs: i64,
    picks: Seq<PickV>,
) -> JsonV {
    JsonV::Object(
        Map::empty().insert("itemId"@, JsonV::Str(l.item_id)).insert(
            "qty"@,
            JsonV::Int(l.qty as int),
        ).insert("unitPriceMinor"@, JsonV::Int(l.unit_price_minor as int)).insert(
            "revenueMinor"@,
            JsonV::Int(revenue as int),
        ).insert("cogsMinor"@, JsonV::Int(cogs as int)).insert(
            "lotConsumption"@,
            JsonV::Array(Seq::new(picks.len(), |i: int| pick_json(picks[i]))),
        ),
    )
}

/// A line of a sale that was granted.
#[verifier::ext_equal]
pub struct GrantedLine {
    pub json: JsonV,
    pub revenue: i64,
    pub demand: Map<Seq<char>, i64>,
}

/// Grants one line of a sale beside what the lines before claimed.
pub open spec fn sale_line_request(m: ReadModel, d: Map<Text, i64>, l: SaleLineV) -> Result<
    GrantedLine,
    Refusal,
> {
    match qty_positive(l.qty) {
        Err(e) => Err(e),
        Ok(_) => match amount_non_negative(l.unit_price_minor) {
            Err(e) => Err(e),
            Ok(_) => match line_picks(m, d, l) {
                Err(e) => Err(e),
                Ok(picks) => match claimed_from(m, d, l.item_id, picks, 0) {
                    Err(e) => Err(e),
                    Ok(demand) => match (product(l.qty, l.unit_price_minor), picks_cost(picks)) {
                        (Some(revenue), Some(cogs)) => Ok(
                            GrantedLine {
                                json: sale_line_json(l, revenue, cogs, picks),
                                revenue,
                                demand,
                            },
                        ),
                        _ => Err(overflow()),
                    },
                },
            },
        },
    }
}

fn picks_to_json(picks: &Vec<(String, i64, i64)>) -> (r: (Vec<Json>, Option<i64>))
    ensures
        elements_of(r.0@) == Seq::new(
            picks_of(picks@).len(),
            |i: int| pick_json(picks_of(picks@)[i]),
        ),
        r.1 == picks_cost(picks_of(picks@)),
{
    let ghost ps = picks_of(picks@);
    let mut out: Vec<Json> = Vec::new();
    let mut cost: Option<i64> = Some(0);
    let mut i: usize = 0;
    while i < picks.len()
        invariant
            i <= picks@.len(),
            ps == picks_of(picks@),
            out@.len() == i,
            forall|k: int| 0 <= k < i ==> (#[trigger] out@[k])@ == pick_json(ps[k]),
            cost == picks_cost(ps.take(i as int)),
        decreases picks@.len() - i,
    {
        let p = &picks[i];
        assert(ps[i as int] == (p.0@, p.1, p.2));
        assert(ps.take(i + 1).drop_last() =~= ps.take(i as int));
        assert(ps.take(i + 1).last() == ps[i as int]);
        let j = Fields::new().text("lotId", p.0.as_str()).number("qtyTaken", p.1).number(
            "unitCostMinor",
            p.2,
        ).done();
        out.push(j);
        cost = match (cost, p.1.checked_mul(p.2)) {
            (Some(a), Some(b)) => a.checked_add(b),
            _ => None,
        };
        i += 1;
    }
    assert(ps.take(ps.len() as int) =~= ps);
    assert(elements_of(out@) =~= Seq::new(ps.len(), |k: int| pick_json(ps[k])));
    (out, cost)
}

fn grant_line(t: &Tables, demand: &mut LotDemand, l: &SaleLineInput) -> (r: Result<
    (Json, i64),
    CommandError,
>)
    ensures
        match r {
            Ok(x) => sale_line_request(t@, old(demand)@, l@) == Ok::<GrantedLine, Refusal>(
                GrantedLine { json: x.0@, revenue: x.1, demand: final(demand)@ },
            ),
            Err(e) => sale_line_request(t@, old(demand)@, l@) == Err::<GrantedLine, Refusal>(e@),
        },
{
    check_qty_positive(l.qty)?;
    check_amount_non_negative(l.unit_price_minor)?;
    let picks = pick_lots(t, demand, l)?;
    claim_picks(t, demand, l.item_id.as_str(), &picks)?;
    let (consumption, cost) = picks_to_json(&picks);
    match (l.qty.checked_mul(l.unit_price_minor), cost) {
        (Some(revenue), Some(cogs)) => {
            let j = Fields::new().text("itemId", l.item_id.as_str()).number("qty", l.qty).number(
                "unitPriceMinor",
                l.unit_price_minor,
            ).number("revenueMinor", revenue).number("cogsMinor", cogs).array(
                "lotConsumption",
                consumption,
            ).done();
            Ok((j, revenue))
        },
        _ => Err(CommandError::Db(DbError::Overflow)),
    }
}

/// Grants the lines of a sale from line `i` on: their records and the total.
pub open spec fn sale_lines_request(
    m: ReadModel,
    lines: Seq<SaleLineV>,
    i: int,
    d: Map<Text, i64>,
    done: Seq<JsonV>,
    total: i64,
) -> Result<(Seq<JsonV>, i64), Refusal>
    decreases lines.len() - i,
{
    if i >= lines.len() {
        Ok((done, total))
    } else {
        match sale_line_request(m, d, lines[i]) {
            Err(e) => Err(e),
            Ok(g) => match plus(Some(total), Some(g.revenue)) {
                None => Err(overflow()),
                Some(total) => sale_lines_request(
                    m,
                    lines,
                    i + 1,
                    g.demand,
                    done.push(g.json),
                    total,
                ),
            },
        }
    }
}

pub open spec fn customer_valid(m: ReadModel, party: Text) -> Verdict {
    match party_kind(m, party) {
        Err(e) => Err(e),
        Ok(None) => Err(refusal("unknown party: "@ + party)),
        Ok(Some(k)) => if k == "customer"@ || k == "both"@ {
            Ok(())
        } else {
            Err(refusal("party "@ + party + " is not a customer"@))
        },
    }
}

fn ensure_customer(t: &Tables, party_id: &str) -> (r: Result<(), CommandError>)
    ensures
        judged(r) == customer_valid(t@, party_id@),
{
    match find_party_kind(t, party_id)? {
        None => Err(reject("unknown party: ".to_owned().concat(party_id))),
        Some(k) => if same(k, "customer") || same(k, "both") {
            Ok(())
        } else {
            Err(reject("party ".to_owned().concat(party_id).concat(" is not a customer")))
        },
    }
}

pub open spec fn sale_payload(
    id: Text,
    customer: Text,
    date: Text,
    terms: Text,
    total: i64,
    lines: Seq<JsonV>,
) -> JsonV {
    JsonV::Object(
        Map::empty().insert("saleId"@, JsonV::Str(id)).insert(
            "customerId"@,
            JsonV::Str(customer),
        ).insert("date"@, JsonV::Str(date)).insert("terms"@, JsonV::Str(terms)).insert(
            "totalMinor"@,
            JsonV::Int(total as int),
        ).insert("lines"@, JsonV::Array(lines)),
    )
}

/// The payload of a sale, or why it is refused.
pub open spec fn sale_request(
    m: ReadModel,
    id: Text,
    customer: Text,
    date: Text,
    terms: Text,
    lines: Seq<SaleLineV>,
) -> Result<JsonV, Refusal> {
    match at_least_one(lines.len()) {
        Err(e) => Err(e),
        Ok(_) => match terms_valid(terms) {
            Err(e) => Err(e),
            Ok(_) => match seeded_party_cash_only(customer, terms) {
                Err(e) => Err(e),
                Ok(_) => match customer_valid(m, customer) {
                    Err(e) => Err(e),
                    Ok(_) => match sale_lines_request(m, lines, 0, Map::empty(), Seq::empty(), 0) {
                        Err(e) => Err(e),
                        Ok((done, total)) => Ok(
                            sale_payload(id, customer, date, terms, total, done),
                        ),
                    },
                },
            },
        },
    }
}

fn grant_lines(t: &Tables, lines: &Vec<SaleLineInput>) -> (r: Result<
    (Vec<Json>, i64),
    CommandError,
>)
    ensures
        match r {
            Ok(x) => sale_lines_request(t@, rows(lines@), 0, Map::empty(), Seq::empty(), 0)
                == Ok::<(Seq<JsonV>, i64), Refusal>((elements_of(x.0@), x.1)),
            Err(e) => sale_lines_request(t@, rows(lines@), 0, Map::empty(), Seq::empty(), 0)
                == Err::<(Seq<JsonV>, i64), Refusal>(e@),
        },
{
    let ghost ls = rows(lines@);
    let mut demand = LotDemand::new();
    let mut out: Vec<Json> = Vec::new();
    let mut total: i64 = 0;
    assert(elements_of(out@) =~= Seq::<JsonV>::empty());
    let mut i: usize = 0;
    while i < lines.len()
        invariant
            i <= lines@.len(),
            ls == rows(lines@),
            sale_lines_request(t@, ls, i as int, demand@, elements_of(out@), total)
                == sale_lines_request(t@, ls, 0, Map::empty(), Seq::empty(), 0),
        decreases lines@.len() - i,
    {
        assert(ls[i as int] == lines@[i as int]@);
        let (j, revenue) = grant_line(t, &mut demand, &lines[i])?;
        let sum: i64 = match total.checked_add(revenue) {
            Some(v) => v,
            None => {
                return Err(CommandError::Db(DbError::Overflow));
            },
        };
        total = sum;
        let ghost before = out@;
        let ghost jv = j@;
        out.push(j);
        assert(elements_of(out@) =~= elements_of(before).push(jv));
        i += 1;
    }
    Ok((out, total))
}

fn validate_sale(
    t: &Tables,
    sale_id: &str,
    customer_id: &str,
    date: &str,
    terms: &str,
    lines: &Vec<SaleLineInput>,
) -> (r: Result<Json, CommandError>)
    ensures
        payload_of(r) == sale_request(
            t@,
            sale_id@,
            customer_id@,
            date@,
            terms@,
            rows(lines@),
        ),
{
    check_at_least_one_line(lines.as_slice())?;
    check_terms(terms)?;
    check_seeded_party_cash_only(customer_id, terms)?;
    ensure_customer(t, customer_id)?;
    let (done, total) = grant_lines(t, lines)?;
    Ok(
        Fields::new().text("saleId", sale_id).text("customerId", customer_id).text(
            "date",
            date,
        ).text("terms", terms).number("totalMinor", total).array("lines", done).done(),
    )
}

/// Records a sale to a customer, taking each line out of the chosen lots or the
/// oldest ones.
pub fn handle_sale_recorded(
    ctx: &mut CommandContext,
    sale_id: &str,
    customer_id: &str,
    date: &str,
    terms: &str,
    lines: Vec<SaleLineInput>,
) -> (r: Result<LedgerEvent, CommandError>)
    ensures
        carried_out(
            scene(old(ctx)),
            scene(final(ctx)),
            r,
            "SaleRecorded"@,
            sale_request(
                old(ctx).conn@.model,
                sale_id@,
                customer_id@,
                date@,
                terms@,
                rows(lines@),
            ),
        ),
        *final(final(ctx).conn) == *final(old(ctx).conn),
        *final(final(ctx).hlc) == *final(old(ctx).hlc),
{
    let payload = validate_sale(&ctx.conn.tables, sale_id, customer_id, date, terms, &lines)?;
    commit_event(ctx, "SaleRecorded", payload)
}

// ---- returns ----

/// Units of one item that come back, by the lot they were sold from.
#[derive(Debug)]
#[verifier::ext_equal]
pub struct SaleReturnItemInput<S = String, P = Vec<(String, i64)>> {
    pub item_id: S,
    pub lot_returns: P,
}

/// The mathematical value of a return line.
pub type SaleReturnV = SaleReturnItemInput<Seq<char>, Seq<(Seq<char>, i64)>>;

impl View for SaleReturnItemInput {
    type V = SaleReturnItemInput<Seq<char>, Seq<(Seq<char>, i64)>>;

    open spec fn view(&self) -> SaleReturnItemInput<Seq<char>, Seq<(Seq<char>, i64)>> {
        SaleReturnItemInput {
            item_id: self.item_id@,
            lot_returns: quantities(self.lot_returns@),
        }
    }
}

/// The different prices at which a sale sold out of a lot, over the first `n`
/// consumption rows.
pub open spec fn prices(m: ReadModel, sale: Text, lot: Text, n: int) -> Seq<i64>
    decreases n,
{
    if n <= 0 {
        Seq::empty()
    } else {
        let before = prices(m, sale, lot, n - 1);
        let c = m.consumptions[n - 1];
        if c.lot_id == lot && consumed_by(m, c, sale) {
            let price = lookup(m.sale_lines, c.sale_line_id)->0.unit_price_minor;
            if before.contains(price) {
                before
            } else {
                before.push(price)
            }
        } else {
            before
        }
    }
}

/// A list of numbers in brackets.
pub open spec fn numbers_text(s: Seq<i64>) -> Text {
    "["@ + joined(s) + "]"@
}

/// Numbers with commas between.
pub open spec fn joined(s: Seq<i64>) -> Text
    decreases s.len(),
{
    if s.len() == 0 {
        ""@
    } else if s.len() == 1 {
        dec(s[0] as int)
    } else {
        joined(s.drop_last()) + ", "@ + dec(s.last() as int)
    }
}

fn join(v: &Vec<i64>) -> (r: String)
    ensures
        r@ == joined(v@),
{
    let mut out = "".to_owned();
    let mut i: usize = 0;
    while i < v.len()
        invariant
            i <= v@.len(),
            out@ == joined(v@.take(i as int)),
        decreases v@.len() - i,
    {
        assert(v@.take(i + 1).drop_last() =~= v@.take(i as int));
        assert(v@.take(i + 1).last() == v@[i as int]);
        if i == 0 {
            out = decimal(v[i]);
        } else {
            out = out.concat(", ").concat(decimal(v[i]).as_str());
        }
        i += 1;
    }
    assert(v@.take(v@.len() as int) =~= v@);
    out
}

/// The one price at which a sale sold out of a lot.
pub open spec fn sold_price(m: ReadModel, sale: Text, lot: Text) -> Result<i64, Refusal> {
    let ps = prices(m, sale, lot, m.consumptions.len() as int);
    if ps.len() == 0 {
        Err(refusal("sale "@ + sale + " has no line consuming lot "@ + lot))
    } else if ps.len() == 1 {
        Ok(ps[0])
    } else {
        Err(
            refusal(
                "sale "@ + sale + " filled lot "@ + lot + " at multiple prices "@ + numbers_text(
                    ps,
                ) + "; return each price line separately"@,
            ),
        )
    }
}

fn lists(v: &Vec<i64>, x: i64) -> (r: bool)
    ensures
        r == v@.contains(x),
{
    let mut i: usize = 0;
    while i < v.len()
        invariant
            i <= v@.len(),
            forall|j: int| 0 <= j < i ==> #[trigger] v@[j] != x,
        decreases v@.len() - i,
    {
        if v[i] == x {
            return true;
        }
        i += 1;
    }
    false
}

fn original_sale_line_price(t: &Tables, sale_id: &str, lot_id: &str) -> (r: Result<
    i64,
    CommandError,
>)
    ensures
        match r {
            Ok(p) => sold_price(t@, sale_id@, lot_id@) == Ok::<i64, Refusal>(p),
            Err(e) => sold_price(t@, sale_id@, lot_id@) == Err::<i64, Refusal>(e@),
        },
{
    let mut found: Vec<i64> = Vec::new();
    let mut i: usize = 0;
    while i < t.consumptions.len()
        invariant
            i <= t.consumptions@.len(),
            found@ == prices(t@, sale_id@, lot_id@, i as int),
        decreases t.consumptions@.len() - i,
    {
        assert(t@.consumptions[i as int] == t.consumptions@[i as int]@);
        if same(t.consumptions[i].lot_id.as_str(), lot_id) {
            if let Some(k) = find(&t.sale_lines, t.consumptions[i].sale_line_id.as_str()) {
                if same(t.sale_lines[k].sale_id.as_str(), sale_id) {
                    let price: i64 = t.sale_lines[k].unit_price_minor;
                    if !lists(&found, price) {
                        found.push(price);
                    }
                }
            }
        }
        i += 1;
    }
    if found.len() == 0 {
        Err(
            reject(
                "sale ".to_owned().concat(sale_id).concat(" has no line consuming lot ").concat(
                    lot_id,
                ),
            ),
        )
    } else if found.len() == 1 {
        Ok(found[0])
    } else {
        Err(
            reject(
                "sale ".to_owned().concat(sale_id).concat(" filled lot ").concat(lot_id).concat(
                    " at multiple prices ",
                ).concat("[".to_owned().concat(join(&found).as_str()).concat("]").as_str()).concat(
                    "; return each price line separately",
                ),
            ),
        )
    }
}

pub open spec fn lot_return_json(lot: Text, qty: i64, cost: i64) -> JsonV {
    JsonV::Object(
        Map::empty().insert("lotId"@, JsonV::Str(lot)).insert(
            "qtyReturned"@,
            JsonV::Int(qty as int),
        ).insert("unitCostMinor"@, JsonV::Int(cost as int)),
    )
}

/// Where the granting of a return line stands.
#[verifier::ext_equal]
pub struct ReturnState {
    pub demand: Map<Seq<char>, i64>,
    pub qty: i64,
    pub price: Option<i64>,
    pub done: Seq<JsonV>,
}

/// Grants one lot of a return line.
pub open spec fn lot_return_request(
    m: ReadModel,
    sale: Text,
    item: Text,
    part: (Text, i64),
    s: ReturnState,
) -> Result<ReturnState, Refusal> {
    match qty_positive(part.1) {
        Err(e) => Err(e),
        Ok(_) => match lot_item_match(m, part.0, item) {
            Err(e) => Err(e),
            Ok(_) => match sale_return_over_restore(m, sale, part.0, part.1) {
                Err(e) => Err(e),
                Ok(_) => match restored(m, s.demand, part.0, part.1) {
                    Err(e) => Err(e),
                    Ok(demand) => match sold_price(m, sale, part.0) {
                        Err(e) => Err(e),
                        Ok(price) => if s.price is Some && s.price->0 != price {
                            Err(
                                refusal(
                                    "item "@ + item
                                        + " returned across lots at differing prices ("@ + dec(
                                        s.price->0 as int,
                                    ) + " vs "@ + dec(price as int)
                                        + "); split into separate lines"@,
                                ),
                            )
                        } else {
                            match lookup(m.lots, part.0) {
                                None => Err(unknown_lot(part.0)),
                                Some(l) => match plus(Some(s.qty), Some(part.1)) {
                                    None => Err(overflow()),
                                    Some(qty) => Ok(
                                        ReturnState {
                                            demand,
                                            qty,
                                            price: Some(price),
                                            done: s.done.push(
                                                lot_return_json(
                                                    part.0,
                                                    part.1,
                                                    l.unit_cost_minor,
                                                ),
                                            ),
                                        },
                                    ),
                                },
                            }
                        },
                    },
                },
            },
        },
    }
}

/// Grants the lots of a return line from lot `j` on.
pub open spec fn lot_returns_request(
    m: ReadModel,
    sale: Text,
    item: Text,
    parts: Seq<(Text, i64)>,
    j: int,
    s: ReturnState,
) -> Result<ReturnState, Refusal>
    decreases parts.len() - j,
{
    if j >= parts.len() {
        Ok(s)
    } else {
        match lot_return_request(m, sale, item, parts[j], s) {
            Err(e) => Err(e),
            Ok(s) => lot_returns_request(m, sale, item, parts, j + 1, s),
        }
    }
}

pub open spec fn return_line_json(item: Text, s: ReturnState) -> JsonV {
    JsonV::Object(
        Map::empty().insert("itemId"@, JsonV::Str(item)).insert(
            "qty"@,
            JsonV::Int(s.qty as int),
        ).insert("unitPriceMinor"@, JsonV::Int(s.price->0 as int)).insert(
            "lotReturns"@,
            JsonV::Array(s.done),
        ),
    )
}

/// Grants one line of a return beside what the lines before restored.
pub open spec fn return_line_request(
    m: ReadModel,
    sale: Text,
    line: SaleReturnV,
    d: Map<Text, i64>,
) -> Result<ReturnState, Refusal> {
    if line.lot_returns.len() == 0 {
        Err(refusal("return line for item "@ + line.item_id + " has no lotReturns"@))
    } else {
        lot_returns_request(
            m,
            sale,
            line.item_id,
            line.lot_returns,
            0,
            ReturnState { demand: d, qty: 0, price: None, done: Seq::empty() },
        )
    }
}

/// Grants the lines of a return from line `i` on.
pub open spec fn return_lines_request(
    m: ReadModel,
    sale: Text,
    lines: Seq<SaleReturnV>,
    i: int,
    d: Map<Text, i64>,
    done: Seq<JsonV>,
) -> Result<Seq<JsonV>, Refusal>
    decreases lines.len() - i,
{
    if i >= lines.len() {
        Ok(done)
    } else {
        match return_line_request(m, sale, lines[i], d) {
            Err(e) => Err(e),
            Ok(s) => return_lines_request(
                m,
                sale,
                lines,
                i + 1,
                s.demand,
                done.push(return_line_json(lines[i].item_id, s)),
            ),
        }
    }
}

pub open spec fn sale_return_payload(
    id: Text,
    original: Text,
    date: Text,
    lines: Seq<JsonV>,
) -> JsonV {
    JsonV::Object(
        Map::empty().insert("returnId"@, JsonV::Str(id)).insert(
            "originalSaleId"@,
            JsonV::Str(original),
        ).insert("date"@, JsonV::Str(date)).insert("lines"@, JsonV::Array(lines)),
    )
}

/// The payload of a sale return, or why it is refused.
pub open spec fn sale_return_request(
    m: ReadModel,
    id: Text,
    original: Text,
    date: Text,
    lines: Seq<SaleReturnV>,
) -> Result<JsonV, Refusal> {
    match at_least_one(lines.len()) {
        Err(e) => Err(e),
        Ok(_) => match invoice_not_reversed(m, "sales"@, original) {
            Err(e) => Err(e),
            Ok(_) => match return_lines_request(m, original, lines, 0, Map::empty(), Seq::empty()) {
                Err(e) => Err(e),
                Ok(done) => Ok(sale_return_payload(id, original, date, done)),
            },
        },
    }
}

/// The granting of a return line as the program holds it.
struct ReturnProgress {
    qty: i64,
    price: Option<i64>,
    done: Vec<Json>,
}

spec fn progress(d: Map<Text, i64>, p: ReturnProgress) -> ReturnState {
    ReturnState { demand: d, qty: p.qty, price: p.price, done: elements_of(p.done@) }
}

fn grant_lot_return(
    t: &Tables,
    demand: &mut LotDemand,
    sale_id: &str,
    item_id: &str,
    lot_id: &str,
    qty_returned: i64,
    p: &mut ReturnProgress,
) -> (r: Result<(), CommandError>)
    ensures
        match r {
            Ok(_) => lot_return_request(
                t@,
                sale_id@,
                item_id@,
                (lot_id@, qty_returned),
                progress(old(demand)@, *old(p)),
            ) == Ok::<ReturnState, Refusal>(progress(final(demand)@, *final(p))),
            Err(e) => lot_return_request(
                t@,
                sale_id@,
                item_id@,
                (lot_id@, qty_returned),
                progress(old(demand)@, *old(p)),
            ) == Err::<ReturnState, Refusal>(e@),
        },
{
    check_qty_positive(qty_returned)?;
    check_lot_item_match(t, lot_id, item_id)?;
    check_sale_return_over_restore(t, sale_id, lot_id, qty_returned)?;
    demand.restore(t, lot_id, qty_returned)?;
    let price: i64 = original_sale_line_price(t, sale_id, lot_id)?;
    if let Some(q) = p.price {
        if q != price {
            return Err(
                reject(
                    "item ".to_owned().concat(item_id).concat(
                        " returned across lots at differing prices (",
                    ).concat(decimal(q).as_str()).concat(" vs ").concat(
                        decimal(price).as_str(),
                    ).concat("); split into separate lines"),
                ),
            );
        }
    }
    let k: usize = find_lot(t, lot_id)?;
    let cost: i64 = t.lots[k].unit_cost_minor;
    let qty: i64 = match p.qty.checked_add(qty_returned) {
        Some(v) => v,
        None => {
            return Err(CommandError::Db(DbError::Overflow));
        },
    };
    let j = Fields::new().text("lotId", lot_id).number("qtyReturned", qty_returned).number(
        "unitCostMinor",
        cost,
    ).done();
    let ghost before = p.done@;
    let ghost jv = j@;
    p.done.push(j);
    assert(elements_of(p.done@) =~= elements_of(before).push(jv));
    p.price = Some(price);
    p.qty = qty;
    Ok(())
}

fn grant_return_line(
    t: &Tables,
    demand: &mut LotDemand,
    sale_id: &str,
    line: &SaleReturnItemInput,
) -> (r: Result<Json, CommandError>)
    ensures
        match r {
            Ok(j) => return_line_request(t@, sale_id@, line@, old(demand)@) matches Ok(s)
                && s.demand == final(demand)@ && j@ == return_line_json(line@.item_id, s),
            Err(e) => return_line_request(t@, sale_id@, line@, old(demand)@) == Err::<
                ReturnState,
                Refusal,
            >(e@),
        },
{
    let item_id = line.item_id.as_str();
    let parts = &line.lot_returns;
    let ghost ps = quantities(parts@);
    if parts.len() == 0 {
        return Err(
            reject(
                "return line for item ".to_owned().concat(item_id).concat(" has no lotReturns"),
            ),
        );
    }
    let mut p = ReturnProgress { qty: 0, price: None, done: Vec::new() };
    assert(elements_of(p.done@) =~= Seq::<JsonV>::empty());
    let mut j: usize = 0;
    while j < parts.len()
        invariant
            j <= parts@.len(),
            parts@.len() > 0,
            *parts == line.lot_returns,
            item_id@ == line@.item_id,
            ps == quantities(parts@),
            j > 0 ==> p.price is Some,
            lot_returns_request(t@, sale_id@, item_id@, ps, j as int, progress(demand@, p))
                == return_line_request(t@, sale_id@, line@, old(demand)@),
        decreases parts@.len() - j,
    {
        assert(ps[j as int] == (parts@[j as int].0@, parts@[j as int].1));
        grant_lot_return(
            t,
            demand,
            sale_id,
            item_id,
            parts[j].0.as_str(),
            parts[j].1,
            &mut p,
        )?;
        j += 1;
    }
    let price: i64 = match p.price {
        Some(v) => v,
        None => 0,
    };
    Ok(
        Fields::new().text("itemId", item_id).number("qty", p.qty).number(
            "unitPriceMinor",
            price,
        ).array("lotReturns", p.done).done(),
    )
}

fn validate_sale_return(
    t: &Tables,
    return_id: &str,
    original_sale_id: &str,
    date: &str,
    lines: &Vec<SaleReturnItemInput>,
) -> (r: Result<Json, CommandError>)
    ensures
        payload_of(r) == sale_return_request(
            t@,
            return_id@,
            original_sale_id@,
            date@,
            rows(lines@),
        ),
{
    let ghost ls = rows(lines@);
    check_at_least_one_line(lines.as_slice())?;
    check_invoice_not_reversed(t, "sales", original_sale_id)?;
    let mut demand = LotDemand::new();
    let mut out: Vec<Json> = Vec::new();
    assert(elements_of(out@) =~= Seq::<JsonV>::empty());
    let ghost goal = sale_return_request(t@, return_id@, original_sale_id@, date@, ls);
    let mut i: usize = 0;
    while i < lines.len()
        invariant
            i <= lines@.len(),
            ls == rows(lines@),
            goal == sale_return_request(t@, return_id@, original_sale_id@, date@, ls),
            goal == (match return_lines_request(
                t@,
                original_sale_id@,
                ls,
                i as int,
                demand@,
                elements_of(out@),
            ) {
                Err(e) => Err(e),
                Ok(done) => Ok(
                    sale_return_payload(return_id@, original_sale_id@, date@, done),
                ),
            }),
        decreases lines@.len() - i,
    {
        assert(ls[i as int] == lines@[i as int]@);
        let j = grant_return_line(t, &mut demand, original_sale_id, &lines[i])?;
        let ghost before = out@;
        let ghost jv = j@;
        out.push(j);
        assert(elements_of(out@) =~= elements_of(before).push(jv));
        i += 1;
    }
    Ok(
        Fields::new().text("returnId", return_id).text("originalSaleId", original_sale_id).text(
            "date",
            date,
        ).array("lines", out).done(),
    )
}

/// Records goods that a customer gave back, at the price and cost they were sold at.
pub fn handle_sale_return_recorded(
    ctx: &mut CommandContext,
    return_id: &str,
    original_sale_id: &str,
    date: &str,
    lines: Vec<SaleReturnItemInput>,
) -> (r: Result<LedgerEvent, CommandError>)
    ensures
        carried_out(
            scene(old(ctx)),
            scene(final(ctx)),
            r,
            "SaleReturnRecorded"@,
            sale_return_request(
                old(ctx).conn@.model,
                return_id@,
                original_sale_id@,
                date@,
                rows(lines@),
            ),
        ),
        *final(final(ctx).conn) == *final(old(ctx).conn),
        *final(final(ctx).hlc) == *final(old(ctx).hlc),
{
    let payload = validate_sale_return(
        &ctx.conn.tables,
        return_id,
        original_sale_id,
        date,
        &lines,
    )?;
    commit_event(ctx, "SaleReturnRecorded", payload)
}

} // verus!

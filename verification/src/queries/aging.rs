//! How old stock and open invoices are.

use crate::commands::sale::{oldest_first, stock_by_age};
use crate::dates::{
    age_of, banded, calendar_day, days_between, find_age, find_days, steady, Age, Bands,
};
use crate::error::DbError;
use crate::model::{Fault, Text};
use crate::rows::{find, lemma_rows_push, lookup, rows, Keyed, Row};
use crate::sort::{sort, sorted, Ranked, RankedRow};
use crate::sums::{accrue, multiply, narrow, total};
use crate::tables::{Invoice, Lot, LotConsumption, ReadModel, Tables};
use crate::text::same;
use vstd::prelude::*;
use vstd::string::*;

verus! {

/// Age and value of one lot that holds units.
#[derive(Debug, PartialEq, Eq)]
#[verifier::ext_equal]
pub struct LotAge<S = String> {
    pub lot_id: S,
    pub qty_remaining: i64,
    pub unit_cost_minor: i64,
    pub age_days: i64,
    pub value_on_hand_minor: i64,
}

impl View for LotAge {
    type V = LotAge<Seq<char>>;

    open spec fn view(&self) -> LotAge<Seq<char>> {
        LotAge {
            lot_id: self.lot_id@,
            qty_remaining: self.qty_remaining,
            unit_cost_minor: self.unit_cost_minor,
            age_days: self.age_days,
            value_on_hand_minor: self.value_on_hand_minor,
        }
    }
}

/// Rows or an error, by value.
pub open spec fn rows_result<R: View>(r: Result<Vec<R>, DbError>) -> Result<Seq<R::V>, Fault> {
    match r {
        Ok(v) => Ok(rows(v@)),
        Err(e) => Err(e@),
    }
}

/// What is said of each lot from lot `i` on, after `done`, given its days of age.
pub open spec fn lot_ages_from(
    lots: Seq<Lot<Text>>,
    days: Seq<Option<i64>>,
    i: int,
    done: Seq<LotAge<Text>>,
) -> Result<Seq<LotAge<Text>>, Fault>
    decreases lots.len() - i,
{
    if i < 0 || i >= lots.len() {
        Ok(done)
    } else {
        match (days[i], narrow(lots[i].qty_remaining * lots[i].unit_cost_minor)) {
            (None, _) => Err(DbError::Null(3, "age_days"@)),
            (_, None) => Err(DbError::Overflow),
            (Some(d), Some(v)) => lot_ages_from(
                lots,
                days,
                i + 1,
                done.push(
                    LotAge {
                        lot_id: lots[i].id,
                        qty_remaining: lots[i].qty_remaining,
                        unit_cost_minor: lots[i].unit_cost_minor,
                        age_days: d,
                        value_on_hand_minor: v,
                    },
                ),
            ),
        }
    }
}

/// Age and value of lots, given the days of age of each.
pub fn ages_of_lots(lots: &Vec<Lot>, days: &Vec<Option<i64>>) -> (r: Result<Vec<LotAge>, DbError>)
    requires
        days@.len() == lots@.len(),
    ensures
        rows_result(r) == lot_ages_from(rows(lots@), days@, 0, Seq::empty()),
{
    broadcast use lemma_rows_push;

    let ghost s = rows(lots@);
    let mut out: Vec<LotAge> = Vec::new();
    let mut i: usize = 0;
    assert(rows(out@) =~= Seq::empty());
    while i < lots.len()
        invariant
            i <= lots@.len(),
            days@.len() == lots@.len(),
            s == rows(lots@),
            lot_ages_from(s, days@, i as int, rows(out@)) == lot_ages_from(
                s,
                days@,
                0,
                Seq::empty(),
            ),
        decreases lots@.len() - i,
    {
        broadcast use lemma_rows_push;

        let l = &lots[i];
        assert(s[i as int] == l@);
        let age_days: i64 = match days[i] {
            Some(d) => d,
            None => {
                return Err(DbError::Null(3, "age_days".to_owned()));
            },
        };
        let value_on_hand_minor: i64 = match accrue(
            Some(0),
            multiply(l.qty_remaining, l.unit_cost_minor),
        ) {
            Some(v) => v,
            None => {
                return Err(DbError::Overflow);
            },
        };
        out.push(
            LotAge {
                lot_id: l.id.clone(),
                qty_remaining: l.qty_remaining,
                unit_cost_minor: l.unit_cost_minor,
                age_days,
                value_on_hand_minor,
            },
        );
        i += 1;
    }
    Ok(out)
}

/// Days of age that agree with the calendar, as far as dates are steady.
pub open spec fn lot_days_agree(
    lots: Seq<Lot<Text>>,
    anchor: Text,
    days: Seq<Option<i64>>,
) -> bool {
    days.len() == lots.len() && forall|i: int|
        0 <= i < lots.len() && steady(anchor) && steady((#[trigger] lots[i]).acquired_at) ==> days[i]
            == days_between(anchor, lots[i].acquired_at)
}

/// Age at a date and value of every lot of an item that holds units, oldest first.
pub fn lot_ages(t: &Tables, item_id: &str, anchor: &str) -> (r: Result<Vec<LotAge>, DbError>)
    ensures
        oldest_first(t@.lots, item_id@).len() == 0 ==> rows_result(r) == Ok::<
            Seq<LotAge<Text>>,
            Fault,
        >(Seq::empty()),
        (r matches Err(e) && e is Refused) || exists|days: Seq<Option<i64>>|
            lot_days_agree(oldest_first(t@.lots, item_id@), anchor@, days) && rows_result(r)
                == #[trigger] lot_ages_from(
                oldest_first(t@.lots, item_id@),
                days,
                0,
                Seq::empty(),
            ),
{
    let lots = stock_by_age(t, item_id);
    let ghost s = rows(lots@);
    let mut days: Vec<Option<i64>> = Vec::new();
    let mut i: usize = 0;
    while i < lots.len()
        invariant
            i <= lots@.len(),
            s == rows(lots@),
            s == oldest_first(t@.lots, item_id@),
            days@.len() == i,
            forall|k: int|
                0 <= k < i && steady(anchor@) && steady((#[trigger] s[k]).acquired_at) ==> days@[k]
                    == days_between(anchor@, s[k].acquired_at),
        decreases lots@.len() - i,
    {
        assert(s[i as int] == lots@[i as int]@);
        let d = find_days(anchor, lots[i].acquired_at.as_str())?;
        days.push(d);
        i += 1;
    }
    proof {
        assert(lot_days_agree(s, anchor@, days@));
    }
    ages_of_lots(&lots, &days)
}

/// The limits between the age bands of stock.
pub const STOCK_BANDS: Bands = (30, 90, 180);

/// What an age band of stock is called.
pub open spec fn stock_band(b: int) -> Text {
    if b <= 0 {
        "0-30d"@
    } else if b == 1 {
        "31-90d"@
    } else if b == 2 {
        "91-180d"@
    } else {
        "180d+"@
    }
}

/// One age band across all stock.
#[derive(Debug, PartialEq, Eq)]
#[verifier::ext_equal]
pub struct AgingBucket<S = String> {
    pub bucket: S,
    pub units: i64,
    pub value_minor: i64,
}

impl View for AgingBucket {
    type V = AgingBucket<Seq<char>>;

    open spec fn view(&self) -> AgingBucket<Seq<char>> {
        AgingBucket { bucket: self.bucket@, units: self.units, value_minor: self.value_minor }
    }
}

/// Lots with their ages.
pub open spec fn aged(lots: Seq<Lot<Text>>, ages: Seq<Age>) -> Seq<(Lot<Text>, Age)> {
    Seq::new(lots.len(), |i: int| (lots[i], ages[i]))
}

/// The lot holds units and is in the band.
pub open spec fn in_band(p: (Lot<Text>, Age), b: int) -> bool {
    p.0.qty_remaining > 0 && p.1.band == b
}

pub open spec fn band_units(s: Seq<(Lot<Text>, Age)>, b: int) -> Option<i64> {
    total(
        s,
        |p: (Lot<Text>, Age)|
            if in_band(p, b) {
                p.0.qty_remaining as int
            } else {
                0
            },
    )
}

pub open spec fn band_value(s: Seq<(Lot<Text>, Age)>, b: int) -> Option<i64> {
    total(
        s,
        |p: (Lot<Text>, Age)|
            if in_band(p, b) {
                p.0.qty_remaining * p.0.unit_cost_minor
            } else {
                0
            },
    )
}

/// Some lot is in the band.
pub open spec fn band_used(s: Seq<(Lot<Text>, Age)>, b: int) -> bool {
    exists|k: int| 0 <= k < s.len() && in_band(#[trigger] s[k], b)
}

/// The bands that some lot is in, from band `b` on, after `done`.
pub open spec fn buckets_from(
    s: Seq<(Lot<Text>, Age)>,
    b: int,
    done: Seq<AgingBucket<Text>>,
) -> Result<Seq<AgingBucket<Text>>, Fault>
    decreases 4 - b,
{
    if b >= 4 {
        Ok(done)
    } else if !band_used(s, b) {
        buckets_from(s, b + 1, done)
    } else {
        match (band_units(s, b), band_value(s, b)) {
            (Some(u), Some(v)) => buckets_from(
                s,
                b + 1,
                done.push(AgingBucket { bucket: stock_band(b), units: u, value_minor: v }),
            ),
            _ => Err(DbError::Overflow),
        }
    }
}

fn band_sums(lots: &Vec<Lot>, ages: &Vec<Age>, b: u8) -> (r: (bool, Option<i64>, Option<i64>))
    requires
        ages@.len() == lots@.len(),
    ensures
        r.0 == band_used(aged(rows(lots@), ages@), b as int),
        r.1 == band_units(aged(rows(lots@), ages@), b as int),
        r.2 == band_value(aged(rows(lots@), ages@), b as int),
{
    let ghost s = aged(rows(lots@), ages@);
    let ghost n = b as int;
    let ghost f = |p: (Lot<Text>, Age)|
        if in_band(p, n) {
            p.0.qty_remaining as int
        } else {
            0
        };
    let ghost g = |p: (Lot<Text>, Age)|
        if in_band(p, n) {
            p.0.qty_remaining * p.0.unit_cost_minor
        } else {
            0
        };
    let mut used = false;
    let mut units: Option<i64> = Some(0);
    let mut value: Option<i64> = Some(0);
    let mut i: usize = 0;
    while i < lots.len()
        invariant
            i <= lots@.len(),
            ages@.len() == lots@.len(),
            s == aged(rows(lots@), ages@),
            n == b,
            f == (|p: (Lot<Text>, Age)|
                if in_band(p, n) {
                    p.0.qty_remaining as int
                } else {
                    0
                }),
            g == (|p: (Lot<Text>, Age)|
                if in_band(p, n) {
                    p.0.qty_remaining * p.0.unit_cost_minor
                } else {
                    0
                }),
            used == (exists|k: int| 0 <= k < i && in_band(#[trigger] s[k], n)),
            units == total(s.take(i as int), f),
            value == total(s.take(i as int), g),
        decreases lots@.len() - i,
    {
        assert(s.take(i + 1).drop_last() =~= s.take(i as int));
        assert(s.take(i + 1).last() == s[i as int]);
        assert(s[i as int] == (lots@[i as int]@, ages@[i as int]));
        let l = &lots[i];
        let (a, v): (i128, i128) = if l.qty_remaining > 0 && ages[i].band == b {
            used = true;
            (l.qty_remaining as i128, multiply(l.qty_remaining, l.unit_cost_minor))
        } else {
            (0, 0)
        };
        units = accrue(units, a);
        value = accrue(value, v);
        i += 1;
    }
    assert(s.take(s.len() as int) =~= s);
    (used, units, value)
}

/// Units and value of stock by age band, given the age of every lot.
pub fn buckets_of(lots: &Vec<Lot>, ages: &Vec<Age>) -> (r: Result<Vec<AgingBucket>, DbError>)
    requires
        ages@.len() == lots@.len(),
    ensures
        rows_result(r) == buckets_from(aged(rows(lots@), ages@), 0, Seq::empty()),
{
    broadcast use lemma_rows_push;

    let ghost s = aged(rows(lots@), ages@);
    let mut out: Vec<AgingBucket> = Vec::new();
    let mut b: u8 = 0;
    assert(rows(out@) =~= Seq::empty());
    while b < 4
        invariant
            b <= 4,
            ages@.len() == lots@.len(),
            s == aged(rows(lots@), ages@),
            buckets_from(s, b as int, rows(out@)) == buckets_from(s, 0, Seq::empty()),
        decreases 4 - b,
    {
        broadcast use lemma_rows_push;

        match band_sums(lots, ages, b) {
            (false, _, _) => {},
            (true, Some(units), Some(value_minor)) => {
                let bucket = if b == 0 {
                    "0-30d"
                } else if b == 1 {
                    "31-90d"
                } else if b == 2 {
                    "91-180d"
                } else {
                    "180d+"
                };
                out.push(AgingBucket { bucket: bucket.to_owned(), units, value_minor });
            },
            _ => {
                return Err(DbError::Overflow);
            },
        }
        b += 1;
    }
    Ok(out)
}

/// Ages of the lots that hold units that agree with the calendar, as far as dates are
/// steady.
pub open spec fn lot_ages_agree(lots: Seq<Lot<Text>>, anchor: Text, ages: Seq<Age>) -> bool {
    ages.len() == lots.len() && forall|i: int|
        0 <= i < lots.len() && (#[trigger] lots[i]).qty_remaining > 0 && steady(anchor) && steady(
            lots[i].acquired_at,
        ) ==> ages[i] == age_of(anchor, lots[i].acquired_at, STOCK_BANDS)
}

/// No lot holds units.
pub open spec fn no_stock(lots: Seq<Lot<Text>>) -> bool {
    forall|i: int| 0 <= i < lots.len() ==> (#[trigger] lots[i]).qty_remaining <= 0
}

/// Without stock there are no age bands.
proof fn lemma_no_buckets(lots: Seq<Lot<Text>>, ages: Seq<Age>)
    requires
        no_stock(lots),
    ensures
        buckets_from(aged(lots, ages), 0, Seq::empty()) == Ok::<Seq<AgingBucket<Text>>, Fault>(
            Seq::empty(),
        ),
{
    reveal_with_fuel(buckets_from, 5);
}

/// Units and value of all stock at a date by age band: the bands that some lot is in,
/// youngest first.
pub fn aging_buckets(t: &Tables, anchor: &str) -> (r: Result<Vec<AgingBucket>, DbError>)
    ensures
        no_stock(t@.lots) ==> rows_result(r) == Ok::<Seq<AgingBucket<Text>>, Fault>(Seq::empty()),
        (r matches Err(e) && e is Refused) || exists|ages: Seq<Age>|
            lot_ages_agree(t@.lots, anchor@, ages) && rows_result(r) == #[trigger] buckets_from(
                aged(t@.lots, ages),
                0,
                Seq::empty(),
            ),
{
    let ghost s = t@.lots;
    let mut ages: Vec<Age> = Vec::new();
    let mut i: usize = 0;
    while i < t.lots.len()
        invariant
            i <= t.lots@.len(),
            s == rows(t.lots@),
            ages@.len() == i,
            forall|k: int|
                0 <= k < i && (#[trigger] s[k]).qty_remaining > 0 && steady(anchor@) && steady(
                    s[k].acquired_at,
                ) ==> ages@[k] == age_of(anchor@, s[k].acquired_at, STOCK_BANDS),
        decreases t.lots@.len() - i,
    {
        assert(s[i as int] == t.lots@[i as int]@);
        let a = if t.lots[i].qty_remaining > 0 {
            find_age(anchor, t.lots[i].acquired_at.as_str(), STOCK_BANDS)?
        } else {
            Age { days: None, band: 3 }
        };
        ages.push(a);
        i += 1;
    }
    proof {
        assert(lot_ages_agree(s, anchor@, ages@));
        if no_stock(s) {
            lemma_no_buckets(s, ages@);
        }
    }
    buckets_of(&t.lots, &ages)
}

// ---- open invoices ----

/// The limits between the age bands of invoices.
pub const INVOICE_BANDS: Bands = (30, 60, 90);

/// What an age band of invoices is called.
pub open spec fn invoice_band(b: int) -> Text {
    if b <= 0 {
        "0-30d"@
    } else if b == 1 {
        "31-60d"@
    } else if b == 2 {
        "61-90d"@
    } else {
        "90d+"@
    }
}

/// An invoice that is not settled, and how old it is.
#[derive(Debug, PartialEq, Eq)]
#[verifier::ext_equal]
pub struct AgingInvoice<S = String> {
    pub invoice_id: S,
    pub date: S,
    pub outstanding_minor: i64,
    pub age_days: i64,
    pub bucket: S,
}

impl View for AgingInvoice {
    type V = AgingInvoice<Seq<char>>;

    open spec fn view(&self) -> AgingInvoice<Seq<char>> {
        AgingInvoice {
            invoice_id: self.invoice_id@,
            date: self.date@,
            outstanding_minor: self.outstanding_minor,
            age_days: self.age_days,
            bucket: self.bucket@,
        }
    }
}

impl Ranked for Invoice<Seq<char>> {
    open spec fn rank(self) -> Seq<char> {
        self.date
    }
}

impl RankedRow for Invoice {
    fn rank(&self) -> &str {
        self.date.as_str()
    }
}

/// The invoice is on credit and not settled.
pub open spec fn is_open(x: Invoice<Text>) -> bool {
    x.terms == "credit"@ && x.outstanding_minor > 0
}

/// The invoices that are not settled, oldest first, those of one day by their id.
pub open spec fn open_invoices(t: Seq<Invoice<Text>>) -> Seq<Invoice<Text>> {
    sorted(t.filter(|x: Invoice<Text>| is_open(x)))
}

fn find_open_invoices(t: &Vec<Invoice>) -> (r: Vec<Invoice>)
    ensures
        rows(r@) == open_invoices(rows(t@)),
{
    let ghost s = rows(t@);
    let ghost f = |x: Invoice<Text>| is_open(x);
    let mut found: Vec<Invoice> = Vec::new();
    let mut i: usize = 0;
    proof {
        reveal(Seq::filter);
        assert(rows(found@) =~= s.take(0).filter(f));
    }
    while i < t.len()
        invariant
            i <= t@.len(),
            s == rows(t@),
            f == (|x: Invoice<Text>| is_open(x)),
            rows(found@) == s.take(i as int).filter(f),
        decreases t@.len() - i,
    {
        broadcast use lemma_rows_push;

        assert(s.take(i + 1).drop_last() =~= s.take(i as int));
        assert(s.take(i + 1).last() == t@[i as int]@);
        proof {
            reveal(Seq::filter);
        }
        if same(t[i].terms.as_str(), "credit") && t[i].outstanding_minor > 0 {
            found.push(t[i].copy());
        }
        i += 1;
    }
    assert(s.take(s.len() as int) =~= s);
    sort(&found)
}

/// What is said of each open invoice from invoice `i` on, after `done`, given its age.
pub open spec fn aging_from(
    s: Seq<Invoice<Text>>,
    ages: Seq<Age>,
    i: int,
    done: Seq<AgingInvoice<Text>>,
) -> Result<Seq<AgingInvoice<Text>>, Fault>
    decreases s.len() - i,
{
    if i < 0 || i >= s.len() {
        Ok(done)
    } else {
        match ages[i].days {
            None => Err(DbError::Null(3, "age_days"@)),
            Some(d) => aging_from(
                s,
                ages,
                i + 1,
                done.push(
                    AgingInvoice {
                        invoice_id: s[i].id,
                        date: s[i].date,
                        outstanding_minor: s[i].outstanding_minor,
                        age_days: d,
                        bucket: invoice_band(ages[i].band as int),
                    },
                ),
            ),
        }
    }
}

/// How old invoices are, given the age of each.
pub fn aging_of(open: &Vec<Invoice>, ages: &Vec<Age>) -> (r: Result<Vec<AgingInvoice>, DbError>)
    requires
        ages@.len() == open@.len(),
    ensures
        rows_result(r) == aging_from(rows(open@), ages@, 0, Seq::empty()),
{
    broadcast use lemma_rows_push;

    let ghost s = rows(open@);
    let mut out: Vec<AgingInvoice> = Vec::new();
    let mut i: usize = 0;
    assert(rows(out@) =~= Seq::empty());
    while i < open.len()
        invariant
            i <= open@.len(),
            ages@.len() == open@.len(),
            s == rows(open@),
            aging_from(s, ages@, i as int, rows(out@)) == aging_from(s, ages@, 0, Seq::empty()),
        decreases open@.len() - i,
    {
        broadcast use lemma_rows_push;

        let x = &open[i];
        assert(s[i as int] == x@);
        let age_days: i64 = match ages[i].days {
            Some(d) => d,
            None => {
                return Err(DbError::Null(3, "age_days".to_owned()));
            },
        };
        let bucket = if ages[i].band == 0 {
            "0-30d"
        } else if ages[i].band == 1 {
            "31-60d"
        } else if ages[i].band == 2 {
            "61-90d"
        } else {
            "90d+"
        };
        out.push(
            AgingInvoice {
                invoice_id: x.id.clone(),
                date: x.date.clone(),
                outstanding_minor: x.outstanding_minor,
                age_days,
                bucket: bucket.to_owned(),
            },
        );
        i += 1;
    }
    Ok(out)
}

/// The bucket of an invoice goes by its age in days.
pub open spec fn bucketed(x: AgingInvoice<Text>) -> bool {
    &&& x.bucket == "0-30d"@ <==> x.age_days <= 30
    &&& x.bucket == "31-60d"@ <==> 30 < x.age_days <= 60
    &&& x.bucket == "61-90d"@ <==> 60 < x.age_days <= 90
    &&& x.bucket == "90d+"@ <==> x.age_days > 90
}

/// The rows that are dated by days, at a day, are in the bucket that their age asks for.
pub open spec fn bucketed_by_days(r: Result<Vec<AgingInvoice>, DbError>, anchor: Text) -> bool {
    calendar_day(anchor) ==> (r matches Ok(v) ==> forall|i: int|
        0 <= i < v@.len() && calendar_day((#[trigger] v@[i]).date@) ==> bucketed(v@[i]@)
            && days_between(anchor, v@[i].date@) == Some(v@[i].age_days))
}

/// The names of the buckets are different ones.
pub proof fn lemma_bucket_names()
    ensures
        "0-30d"@ != "31-60d"@,
        "0-30d"@ != "61-90d"@,
        "0-30d"@ != "90d+"@,
        "31-60d"@ != "61-90d"@,
        "31-60d"@ != "90d+"@,
        "61-90d"@ != "90d+"@,
{
    reveal_strlit("0-30d");
    reveal_strlit("31-60d");
    reveal_strlit("61-90d");
    reveal_strlit("90d+");
    assert("0-30d"@.len() == 5);
    assert("31-60d"@.len() == 6);
    assert("61-90d"@.len() == 6);
    assert("90d+"@.len() == 4);
    assert("31-60d"@[0] == '3');
    assert("61-90d"@[0] == '6');
}

/// Rows made from ages that go by the days are in the bucket that their age asks for.
proof fn lemma_bucketed(
    s: Seq<Invoice<Text>>,
    ages: Seq<Age>,
    i: int,
    done: Seq<AgingInvoice<Text>>,
    anchor: Text,
)
    requires
        0 <= i,
        forall|k: int|
            i <= k < s.len() && calendar_day((#[trigger] s[k]).date) ==> banded(
                ages[k],
                INVOICE_BANDS,
            ) && ages[k].days == days_between(anchor, s[k].date),
        forall|k: int|
            0 <= k < done.len() && calendar_day((#[trigger] done[k]).date) ==> bucketed(done[k])
                && days_between(anchor, done[k].date) == Some(done[k].age_days),
    ensures
        aging_from(s, ages, i, done) matches Ok(r) ==> forall|k: int|
            0 <= k < r.len() && calendar_day((#[trigger] r[k]).date) ==> bucketed(r[k])
                && days_between(anchor, r[k].date) == Some(r[k].age_days),
    decreases s.len() - i,
{
    if i < s.len() && ages[i].days is Some {
        lemma_bucket_names();
        let x = AgingInvoice {
            invoice_id: s[i].id,
            date: s[i].date,
            outstanding_minor: s[i].outstanding_minor,
            age_days: ages[i].days->0,
            bucket: invoice_band(ages[i].band as int),
        };
        lemma_bucketed(s, ages, i + 1, done.push(x), anchor);
    }
}

/// Ages that agree with the calendar, as far as dates are steady.
pub open spec fn invoice_ages_agree(s: Seq<Invoice<Text>>, anchor: Text, ages: Seq<Age>) -> bool {
    ages.len() == s.len() && forall|i: int|
        0 <= i < s.len() && steady(anchor) && steady((#[trigger] s[i]).date) ==> ages[i] == age_of(
            anchor,
            s[i].date,
            INVOICE_BANDS,
        )
}

fn run_aging(t: &Vec<Invoice>, anchor: &str) -> (r: Result<Vec<AgingInvoice>, DbError>)
    ensures
        bucketed_by_days(r, anchor@),
        open_invoices(rows(t@)).len() == 0 ==> rows_result(r) == Ok::<Seq<AgingInvoice<Text>>, Fault>(
            Seq::empty(),
        ),
        (r matches Err(e) && e is Refused) || exists|ages: Seq<Age>|
            invoice_ages_agree(open_invoices(rows(t@)), anchor@, ages) && rows_result(r)
                == #[trigger] aging_from(open_invoices(rows(t@)), ages, 0, Seq::empty()),
{
    let open = find_open_invoices(t);
    let ghost s = rows(open@);
    let mut ages: Vec<Age> = Vec::new();
    let mut i: usize = 0;
    while i < open.len()
        invariant
            i <= open@.len(),
            s == rows(open@),
            s == open_invoices(rows(t@)),
            ages@.len() == i,
            forall|k: int|
                0 <= k < i && steady(anchor@) && steady((#[trigger] s[k]).date) ==> ages@[k]
                    == age_of(anchor@, s[k].date, INVOICE_BANDS),
            forall|k: int|
                0 <= k < i && calendar_day(anchor@) && calendar_day((#[trigger] s[k]).date)
                    ==> banded(ages@[k], INVOICE_BANDS) && ages@[k].days == days_between(
                    anchor@,
                    s[k].date,
                ),
        decreases open@.len() - i,
    {
        assert(s[i as int] == open@[i as int]@);
        let a = find_age(anchor, open[i].date.as_str(), INVOICE_BANDS)?;
        ages.push(a);
        i += 1;
    }
    proof {
        assert(invoice_ages_agree(s, anchor@, ages@));
        if calendar_day(anchor@) {
            lemma_bucketed(s, ages@, 0, Seq::empty(), anchor@);
        }
    }
    let r = aging_of(&open, &ages);
    proof {
        if r is Ok {
            let v = r->Ok_0@;
            assert forall|k: int| 0 <= k < v.len() implies rows(v)[k] == (#[trigger] v[k])@ by {}
        }
    }
    r
}

/// What customers owe, oldest first, with the age of each invoice at a date.
pub fn receivable_aging(t: &Tables, anchor: &str) -> (r: Result<Vec<AgingInvoice>, DbError>)
    ensures
        bucketed_by_days(r, anchor@),
        open_invoices(t@.sales).len() == 0 ==> rows_result(r) == Ok::<Seq<AgingInvoice<Text>>, Fault>(
            Seq::empty(),
        ),
        (r matches Err(e) && e is Refused) || exists|ages: Seq<Age>|
            invoice_ages_agree(open_invoices(t@.sales), anchor@, ages) && rows_result(r)
                == #[trigger] aging_from(open_invoices(t@.sales), ages, 0, Seq::empty()),
{
    assert(t@.sales == rows(t.sales@));
    run_aging(&t.sales, anchor)
}

/// What is owed to suppliers, oldest first, with the age of each bill at a date.
pub fn payable_aging(t: &Tables, anchor: &str) -> (r: Result<Vec<AgingInvoice>, DbError>)
    ensures
        bucketed_by_days(r, anchor@),
        open_invoices(t@.purchases).len() == 0 ==> rows_result(r) == Ok::<Seq<AgingInvoice<Text>>, Fault>(
            Seq::empty(),
        ),
        (r matches Err(e) && e is Refused) || exists|ages: Seq<Age>|
            invoice_ages_agree(open_invoices(t@.purchases), anchor@, ages) && rows_result(r)
                == #[trigger] aging_from(open_invoices(t@.purchases), ages, 0, Seq::empty()),
{
    assert(t@.purchases == rows(t.purchases@));
    run_aging(&t.purchases, anchor)
}

// ---- age at sale ----

/// How old units were when they were sold.
#[derive(Debug, PartialEq, Eq)]
#[verifier::ext_equal]
pub struct AgeAtSale<S = String> {
    pub item_id: S,
    pub sale_date: S,
    pub acquired_at: S,
    pub age_at_sale_days: i64,
    pub qty_taken: i64,
}

impl View for AgeAtSale {
    type V = AgeAtSale<Seq<char>>;

    open spec fn view(&self) -> AgeAtSale<Seq<char>> {
        AgeAtSale {
            item_id: self.item_id@,
            sale_date: self.sale_date@,
            acquired_at: self.acquired_at@,
            age_at_sale_days: self.age_at_sale_days,
            qty_taken: self.qty_taken,
        }
    }
}

impl Keyed for AgeAtSale<Seq<char>> {
    open spec fn key(self) -> Seq<char> {
        self.item_id
    }
}

impl Row for AgeAtSale {
    fn id(&self) -> &str {
        self.item_id.as_str()
    }

    fn copy(&self) -> Self {
        AgeAtSale {
            item_id: self.item_id.clone(),
            sale_date: self.sale_date.clone(),
            acquired_at: self.acquired_at.clone(),
            age_at_sale_days: self.age_at_sale_days,
            qty_taken: self.qty_taken,
        }
    }
}

impl Ranked for AgeAtSale<Seq<char>> {
    open spec fn rank(self) -> Seq<char> {
        self.sale_date
    }
}

impl RankedRow for AgeAtSale {
    fn rank(&self) -> &str {
        self.sale_date.as_str()
    }
}

/// The item sold, the date of the sale and the date of the lot, where the consumption's
/// line, sale and lot are all there.
pub open spec fn provenance(m: ReadModel, c: LotConsumption<Text>) -> Option<(Text, Text, Text)> {
    match (lookup(m.sale_lines, c.sale_line_id), lookup(m.lots, c.lot_id)) {
        (Some(l), Some(lot)) => match lookup(m.sales, l.sale_id) {
            Some(s) => Some((l.item_id, s.date, lot.acquired_at)),
            None => None,
        },
        _ => None,
    }
}

fn trace(t: &Tables, c: &LotConsumption) -> (r: Option<(String, String, String)>)
    ensures
        match r {
            Some(p) => provenance(t@, c@) == Some((p.0@, p.1@, p.2@)),
            None => provenance(t@, c@) is None,
        },
{
    match (find(&t.sale_lines, c.sale_line_id.as_str()), find(&t.lots, c.lot_id.as_str())) {
        (Some(i), Some(j)) => match find(&t.sales, t.sale_lines[i].sale_id.as_str()) {
            Some(k) => Some(
                (
                    t.sale_lines[i].item_id.clone(),
                    t.sales[k].date.clone(),
                    t.lots[j].acquired_at.clone(),
                ),
            ),
            None => None,
        },
        _ => None,
    }
}

/// What is said of each consumption from consumption `i` on, after `done`, given the
/// days between the sale and the lot.
pub open spec fn sold_ages_from(
    m: ReadModel,
    days: Seq<Option<i64>>,
    i: int,
    done: Seq<AgeAtSale<Text>>,
) -> Result<Seq<AgeAtSale<Text>>, Fault>
    decreases m.consumptions.len() - i,
{
    if i < 0 || i >= m.consumptions.len() {
        Ok(sorted(done))
    } else {
        match (provenance(m, m.consumptions[i]), days[i]) {
            (None, _) => sold_ages_from(m, days, i + 1, done),
            (_, None) => Err(DbError::Null(3, "age_at_sale_days"@)),
            (Some(p), Some(d)) => sold_ages_from(
                m,
                days,
                i + 1,
                done.push(
                    AgeAtSale {
                        item_id: p.0,
                        sale_date: p.1,
                        acquired_at: p.2,
                        age_at_sale_days: d,
                        qty_taken: m.consumptions[i].qty_taken,
                    },
                ),
            ),
        }
    }
}

/// How old units were when they were sold, given the days between every sale and lot.
pub fn sold_ages(t: &Tables, days: &Vec<Option<i64>>) -> (r: Result<Vec<AgeAtSale>, DbError>)
    requires
        days@.len() == t.consumptions@.len(),
    ensures
        rows_result(r) == sold_ages_from(t@, days@, 0, Seq::empty()),
{
    broadcast use lemma_rows_push;

    let mut out: Vec<AgeAtSale> = Vec::new();
    let mut i: usize = 0;
    assert(rows(out@) =~= Seq::empty());
    while i < t.consumptions.len()
        invariant
            i <= t.consumptions@.len(),
            days@.len() == t.consumptions@.len(),
            sold_ages_from(t@, days@, i as int, rows(out@)) == sold_ages_from(
                t@,
                days@,
                0,
                Seq::empty(),
            ),
        decreases t.consumptions@.len() - i,
    {
        broadcast use lemma_rows_push;

        let c = &t.consumptions[i];
        assert(t@.consumptions[i as int] == c@);
        if let Some((item_id, sale_date, acquired_at)) = trace(t, c) {
            let age_at_sale_days: i64 = match days[i] {
                Some(d) => d,
                None => {
                    return Err(DbError::Null(3, "age_at_sale_days".to_owned()));
                },
            };
            out.push(
                AgeAtSale {
                    item_id,
                    sale_date,
                    acquired_at,
                    age_at_sale_days,
                    qty_taken: c.qty_taken,
                },
            );
        }
        i += 1;
    }
    Ok(sort(&out))
}

/// Days that agree with the calendar, as far as dates are steady.
pub open spec fn sold_days_agree(m: ReadModel, days: Seq<Option<i64>>) -> bool {
    days.len() == m.consumptions.len() && forall|i: int|
        0 <= i < days.len() ==> match provenance(m, #[trigger] m.consumptions[i]) {
            Some(p) => steady(p.1) && steady(p.2) ==> days[i] == days_between(p.1, p.2),
            None => true,
        }
}

/// No consumption can be traced to its sale and its lot.
pub open spec fn none_traced(m: ReadModel) -> bool {
    forall|i: int|
        0 <= i < m.consumptions.len() ==> provenance(m, #[trigger] m.consumptions[i]) is None
}

/// Consumptions that cannot be traced are passed over.
proof fn lemma_none_traced(m: ReadModel, days: Seq<Option<i64>>, i: int)
    requires
        0 <= i,
        none_traced(m),
    ensures
        sold_ages_from(m, days, i, Seq::empty()) == Ok::<Seq<AgeAtSale<Text>>, Fault>(
            Seq::empty(),
        ),
    decreases m.consumptions.len() - i,
{
    if i < m.consumptions.len() {
        lemma_none_traced(m, days, i + 1);
    }
}

/// How old the units of every consumption were when they were sold, by the date of the
/// sale, then by item.
pub fn age_at_sale(t: &Tables) -> (r: Result<Vec<AgeAtSale>, DbError>)
    ensures
        none_traced(t@) ==> rows_result(r) == Ok::<Seq<AgeAtSale<Text>>, Fault>(Seq::empty()),
        (r matches Err(e) && e is Refused) || exists|days: Seq<Option<i64>>|
            sold_days_agree(t@, days) && rows_result(r) == #[trigger] sold_ages_from(
                t@,
                days,
                0,
                Seq::empty(),
            ),
{
    let ghost s = t@.consumptions;
    let mut days: Vec<Option<i64>> = Vec::new();
    let mut i: usize = 0;
    while i < t.consumptions.len()
        invariant
            i <= t.consumptions@.len(),
            s == t@.consumptions,
            days@.len() == i,
            forall|k: int|
                0 <= k < i ==> match provenance(t@, #[trigger] s[k]) {
                    Some(p) => steady(p.1) && steady(p.2) ==> days@[k] == days_between(p.1, p.2),
                    None => true,
                },
        decreases t.consumptions@.len() - i,
    {
        assert(s[i as int] == t.consumptions@[i as int]@);
        let d = match trace(t, &t.consumptions[i]) {
            Some(p) => find_days(p.1.as_str(), p.2.as_str())?,
            None => None,
        };
        days.push(d);
        i += 1;
    }
    proof {
        assert(sold_days_agree(t@, days@));
        if none_traced(t@) {
            lemma_none_traced(t@, days@, 0);
        }
    }
    sold_ages(t, &days)
}

} // verus!

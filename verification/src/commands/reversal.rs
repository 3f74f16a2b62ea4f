//! Reversing a transaction.

use crate::commands::{
    carried_out, commit_event, judged, payload_of, refusal, reject, scene, CommandContext,
    CommandError, Refusal,
};
use crate::commands::categories::{categories, has_category, EventCategory};
use crate::commands::guards::{
    check_lot_source_void, check_not_already_reversed, check_reversal_downstream,
    check_reversal_legal_target, check_reversal_lot_restore_reconsumed, lot_source_void,
    not_already_reversed, reconsumed_from, reversal_downstream, reversal_legal_target, Verdict,
};
use crate::db::{Database, Store};
use crate::events::{EventV, LedgerEvent};
use crate::json::{elements_of, ps, txt, Fields, Json, JsonV};
use crate::model::Text;
use crate::rows::{find, lemma_rows_push, lookup, rows, Row};
use crate::sort::{sort, sorted, Ranked, RankedRow};
use crate::tables::{JournalLine, ReadModel, Tables};
use crate::text::same;
use vstd::prelude::*;
use vstd::string::*;

verus! {

impl Ranked for JournalLine<Seq<char>> {
    open spec fn rank(self) -> Seq<char> {
        self.event_id
    }
}

impl RankedRow for JournalLine {
    fn rank(&self) -> &str {
        self.event_id.as_str()
    }
}

/// The journal lines of an event.
pub open spec fn lines_of(t: Seq<JournalLine<Text>>, event: Text) -> Seq<JournalLine<Text>> {
    t.filter(|l: JournalLine<Text>| l.event_id == event)
}

/// The line that takes a posting back: debit and credit trade places.
pub open spec fn swapped(l: JournalLine<Text>) -> JsonV {
    JsonV::Object(
        Map::empty().insert("accountId"@, JsonV::Str(l.account_id)).insert(
            "debitMinor"@,
            JsonV::Int(l.credit_minor as int),
        ).insert("creditMinor"@, JsonV::Int(l.debit_minor as int)),
    )
}

/// The lines that take an event's postings back, in the order of the postings' ids.
pub open spec fn reversal_lines(t: Seq<JournalLine<Text>>, event: Text) -> Seq<JsonV> {
    Seq::new(
        sorted(lines_of(t, event)).len(),
        |i: int| swapped(sorted(lines_of(t, event))[i]),
    )
}

fn copy_lines_of(t: &Vec<JournalLine>, event_id: &str) -> (r: Vec<JournalLine>)
    ensures
        rows(r@) == lines_of(rows(t@), event_id@),
{
    let ghost s = rows(t@);
    let ghost f = |l: JournalLine<Text>| l.event_id == event_id@;
    let mut out: Vec<JournalLine> = Vec::new();
    let mut i: usize = 0;
    proof {
        reveal(Seq::filter);
        assert(rows(out@) =~= s.take(0).filter(f));
    }
    while i < t.len()
        invariant
            i <= t@.len(),
            s == rows(t@),
            f == (|l: JournalLine<Text>| l.event_id == event_id@),
            rows(out@) == s.take(i as int).filter(f),
        decreases t@.len() - i,
    {
        proof {
            reveal(Seq::filter);
            assert(s.take(i + 1).drop_last() =~= s.take(i as int));
            assert(s.take(i + 1).last() == t@[i as int]@);
        }
        if same(t[i].event_id.as_str(), event_id) {
            let l = t[i].copy();
            proof {
                lemma_rows_push(out@, l);
            }
            out.push(l);
        }
        i += 1;
    }
    assert(s.take(s.len() as int) =~= s);
    out
}

fn freeze_reversal_journal_lines(t: &Tables, target_event_id: &str) -> (r: Vec<Json>)
    ensures
        elements_of(r@) == reversal_lines(t@.journal, target_event_id@),
{
    let found = copy_lines_of(&t.journal, target_event_id);
    let lines = sort(&found);
    let ghost ls = rows(lines@);
    let mut out: Vec<Json> = Vec::new();
    let mut i: usize = 0;
    while i < lines.len()
        invariant
            i <= lines@.len(),
            ls == rows(lines@),
            out@.len() == i,
            forall|k: int| 0 <= k < i ==> (#[trigger] out@[k])@ == swapped(ls[k]),
        decreases lines@.len() - i,
    {
        let l = &lines[i];
        assert(ls[i as int] == l@);
        let j = Fields::new().text("accountId", l.account_id.as_str()).number(
            "debitMinor",
            l.credit_minor,
        ).number("creditMinor", l.debit_minor).done();
        out.push(j);
        i += 1;
    }
    assert(elements_of(out@) =~= reversal_lines(t@.journal, target_event_id@));
    out
}

/// Nothing later builds on the transaction.
pub open spec fn free_to_reverse(m: ReadModel, log: Seq<EventV>, target: EventV) -> Verdict {
    let ty = target.event_type;
    let tp = target.payload;
    if ty == "SaleRecorded"@ {
        reversal_downstream(m, log, "sale"@, txt(tp, "saleId"@), None)
    } else if ty == "PurchaseRecorded"@ {
        reversal_downstream(m, log, "purchase"@, txt(tp, "purchaseId"@), None)
    } else if ty == "PaymentMade"@ || ty == "PaymentReceived"@ {
        reversal_downstream(m, log, "sale"@, ""@, Some(txt(tp, "paymentId"@)))
    } else if ty == "SaleReturnRecorded"@ {
        reconsumed_from(m, txt(tp, "returnId"@), 0)
    } else {
        Ok(())
    }
}

fn check_free_to_reverse(t: &Tables, log: &Vec<LedgerEvent>, target: &LedgerEvent) -> (r: Result<
    (),
    CommandError,
>)
    ensures
        judged(r) == free_to_reverse(t@, rows(log@), target@),
{
    let ty = target.event_type.as_str();
    let tp = &target.payload;
    if same(ty, "SaleRecorded") {
        check_reversal_downstream(t, log, "sale", ps(tp, "saleId"), None)
    } else if same(ty, "PurchaseRecorded") {
        check_reversal_downstream(t, log, "purchase", ps(tp, "purchaseId"), None)
    } else if same(ty, "PaymentMade") || same(ty, "PaymentReceived") {
        check_reversal_downstream(t, log, "sale", "", Some(ps(tp, "paymentId")))
    } else if same(ty, "SaleReturnRecorded") {
        check_reversal_lot_restore_reconsumed(t, ps(tp, "returnId"))
    } else {
        Ok(())
    }
}

/// The payload of a reversal, or why it is refused.
pub open spec fn reversal_request(s: Store, target_id: Text, reason: Text) -> Result<
    JsonV,
    Refusal,
> {
    match reversal_legal_target(s.events, target_id) {
        Err(e) => Err(e),
        Ok(_) => match not_already_reversed(s.events, target_id) {
            Err(e) => Err(e),
            Ok(_) => match lookup(s.events, target_id) {
                None => Err(refusal("unknown target event: "@ + target_id)),
                Some(target) => {
                    let whole = if categories(target.event_type).contains(
                        EventCategory::LotCreating,
                    ) {
                        lot_source_void(s.model, target_id)
                    } else {
                        Ok(())
                    };
                    match whole {
                        Err(e) => Err(e),
                        Ok(_) => match free_to_reverse(s.model, s.events, target) {
                            Err(e) => Err(e),
                            Ok(_) => Ok(
                                reversal_payload(s.model, target_id, target.event_type, reason),
                            ),
                        },
                    }
                },
            },
        },
    }
}

pub open spec fn reversal_payload(
    m: ReadModel,
    target_id: Text,
    target_type: Text,
    reason: Text,
) -> JsonV {
    JsonV::Object(
        Map::empty().insert("targetEventId"@, JsonV::Str(target_id)).insert(
            "targetType"@,
            JsonV::Str(target_type),
        ).insert("reason"@, JsonV::Str(reason)).insert(
            "reversalJournalLines"@,
            JsonV::Array(reversal_lines(m.journal, target_id)),
        ),
    )
}

fn validate_reversal(db: &Database, target_event_id: &str, reason: &str) -> (r: Result<
    Json,
    CommandError,
>)
    ensures
        payload_of(r) == reversal_request(db@, target_event_id@, reason@),
{
    check_reversal_legal_target(&db.events, target_event_id)?;
    check_not_already_reversed(&db.events, target_event_id)?;
    match find(&db.events, target_event_id) {
        None => Err(reject("unknown target event: ".to_owned().concat(target_event_id))),
        Some(i) => {
            let target = &db.events[i];
            let ty = target.event_type.as_str();
            if has_category(ty, EventCategory::LotCreating) {
                check_lot_source_void(&db.tables, target_event_id)?;
            }
            check_free_to_reverse(&db.tables, &db.events, target)?;
            let lines = freeze_reversal_journal_lines(&db.tables, target_event_id);
            Ok(
                Fields::new().text("targetEventId", target_event_id).text(
                    "targetType",
                    ty,
                ).text("reason", reason).array("reversalJournalLines", lines).done(),
            )
        },
    }
}

/// Reverses a transaction that nothing later builds on.
pub fn handle_transaction_reversed(
    ctx: &mut CommandContext,
    target_event_id: &str,
    reason: &str,
) -> (r: Result<LedgerEvent, CommandError>)
    ensures
        carried_out(
            scene(old(ctx)),
            scene(final(ctx)),
            r,
            "TransactionReversed"@,
            reversal_request(old(ctx).conn@, target_event_id@, reason@),
        ),
        *final(final(ctx).conn) == *final(old(ctx).conn),
        *final(final(ctx).hlc) == *final(old(ctx).hlc),
{
    let payload = validate_reversal(ctx.conn, target_event_id, reason)?;
    commit_event(ctx, "TransactionReversed", payload)
}

} // verus!

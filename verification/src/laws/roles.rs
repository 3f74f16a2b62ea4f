//! Accounts keep their roles.

use crate::events::EventV;
use crate::json::{opt_txt, txt, JsonV};
use crate::model::{
    account_opened, account_updated, in_role, post, posted_accounts, role_hit, role_id, role_of,
    Fault, Outcome, Text,
};
use crate::rows::{distinct, lemma_has, lemma_place, place, Keyed};
use crate::tables::{Account, ReadModel};
use vstd::prelude::*;

verus! {

/// Account ids occur once, and the given account is in the role.
pub open spec fn held_in(m: ReadModel, role: Text, account: Text) -> bool {
    distinct(m.accounts) && role_id(m, role) == Ok::<Text, Fault>(account)
}

/// The same after some steps, unless these failed.
pub open spec fn held_after(o: Outcome, role: Text, account: Text) -> bool {
    o matches Ok(m) ==> held_in(m, role, account)
}

/// Accounts that differ in their balances alone keep their roles.
pub proof fn lemma_same_roles(t: Seq<Account<Text, JsonV>>, u: Seq<Account<Text, JsonV>>, role: Text)
    requires
        t.len() == u.len(),
        forall|i: int|
            0 <= i < t.len() ==> (#[trigger] u[i]).id == t[i].id && u[i].doc == t[i].doc,
    ensures
        in_role(t, role) is Some <==> in_role(u, role) is Some,
        in_role(t, role) is Some ==> in_role(t, role)->0.id == in_role(u, role)->0.id,
{
    assert forall|i: int| role_hit(t, role, i) <==> role_hit(u, role, i) by {
        if role_hit(t, role, i) {
            assert forall|j: int| 0 <= j < i implies role_of(#[trigger] u[j]) != Some(role) by {
                assert(role_of(t[j]) != Some(role));
            }
        }
        if role_hit(u, role, i) {
            assert forall|j: int| 0 <= j < i implies role_of(#[trigger] t[j]) != Some(role) by {
                assert(role_of(u[j]) != Some(role));
            }
        }
    }
    if in_role(t, role) is Some {
        let i = choose|i: int| role_hit(t, role, i);
        let j = choose|j: int| role_hit(u, role, j);
        assert(role_hit(u, role, i));
        assert(role_hit(t, role, j));
        assert(i == j) by {
            if i < j {
                assert(role_of(u[i]) != Some(role));
            } else if j < i {
                assert(role_of(u[j]) != Some(role));
            }
        }
    } else if in_role(u, role) is Some {
        let j = choose|j: int| role_hit(u, role, j);
        assert(role_hit(t, role, j));
    }
}

/// The account in one role is not in another.
pub proof fn lemma_other_role(m: ReadModel, role: Text, account: Text, other: Text)
    requires
        held_in(m, role, account),
        other != role,
    ensures
        role_id(m, other) matches Ok(a) ==> a != account,
{
    if let Ok(a) = role_id(m, other) {
        let i = choose|i: int| role_hit(m.accounts, other, i);
        let j = choose|j: int| role_hit(m.accounts, role, j);
        assert(role_hit(m.accounts, other, i));
        assert(role_hit(m.accounts, role, j));
        if a == account {
            assert(m.accounts[i].key() == m.accounts[j].key());
            if i < j {
                assert(m.accounts[i].key() != m.accounts[j].key());
            } else if j < i {
                assert(m.accounts[j].key() != m.accounts[i].key());
            }
        }
    }
}

/// A posting leaves accounts in their roles.
pub proof fn lemma_post_holds(
    m: ReadModel,
    event: Text,
    txn: Text,
    index: nat,
    posted: Text,
    debit: i64,
    credit: i64,
    date: Text,
    memo: Option<Text>,
    role: Text,
    account: Text,
)
    requires
        held_in(m, role, account),
    ensures
        held_after(
            post(Ok(m), event, txn, index, posted, debit, credit, date, memo),
            role,
            account,
        ),
{
    if let Ok(n) = post(Ok(m), event, txn, index, posted, debit, credit, date, memo) {
        lemma_has(m.accounts, posted);
        lemma_same_roles(m.accounts, n.accounts, role);
        assert forall|i: int, j: int| 0 <= i < j < n.accounts.len() implies (
        #[trigger] n.accounts[i]).key() != (#[trigger] n.accounts[j]).key() by {
            assert(m.accounts[i].key() != m.accounts[j].key());
        }
    }
}

/// Opening an account leaves accounts in their roles.
pub proof fn lemma_opening_holds(m: ReadModel, ev: EventV, role: Text, account: Text)
    requires
        held_in(m, role, account),
    ensures
        held_after(account_opened(m, ev), role, account),
{
    let a = Account { id: txt(ev.payload, "accountId"@), doc: ev.payload, balance_minor: 0 };
    if let Ok(n) = account_opened(m, ev) {
        let i = choose|i: int| role_hit(m.accounts, role, i);
        assert(role_hit(m.accounts, role, i));
        assert(role_hit(n.accounts, role, i)) by {
            assert forall|j: int| 0 <= j < i implies role_of(#[trigger] n.accounts[j]) != Some(
                role,
            ) by {
                assert(role_of(m.accounts[j]) != Some(role));
            }
        }
        let k = choose|k: int| role_hit(n.accounts, role, k);
        assert(role_hit(n.accounts, role, k));
        assert(k == i) by {
            if k < i {
                assert(role_of(m.accounts[k]) != Some(role));
            } else if i < k {
                assert(role_of(n.accounts[i]) != Some(role));
            }
        }
        assert forall|x: int, y: int| 0 <= x < y < n.accounts.len() implies (
        #[trigger] n.accounts[x]).key() != (#[trigger] n.accounts[y]).key() by {
            if y < m.accounts.len() {
                assert(m.accounts[x].key() != m.accounts[y].key());
            } else {
                assert(m.accounts[x].key() != a.key());
            }
        }
    }
}

/// An update leaves account ids alone.
pub proof fn lemma_update_holds(m: ReadModel, ev: EventV, role: Text, account: Text)
    requires
        held_in(m, role, account),
        account_updated(m, ev) matches Ok(n) ==> role_id(n, role) == Ok::<Text, Fault>(account),
    ensures
        held_after(account_updated(m, ev), role, account),
{
    if let Ok(n) = account_updated(m, ev) {
        lemma_has(m.accounts, txt(ev.payload, "accountId"@));
        assert forall|x: int, y: int| 0 <= x < y < n.accounts.len() implies (
        #[trigger] n.accounts[x]).key() != (#[trigger] n.accounts[y]).key() by {
            assert(m.accounts[x].key() != m.accounts[y].key());
        }
    }
}

/// A role is filled by the first account whose document names it, and by none where no
/// document does.
pub proof fn law_roles_are_filled_by_the_first(t: Seq<Account<Text, JsonV>>, role: Text)
    ensures
        match in_role(t, role) {
            Some(a) => exists|i: int|
                0 <= i < t.len() && #[trigger] t[i] == a && opt_txt(t[i].doc, "system_role"@)
                    == Some(role) && forall|j: int|
                    0 <= j < i ==> opt_txt((#[trigger] t[j]).doc, "system_role"@) != Some(role),
            None => forall|i: int|
                0 <= i < t.len() ==> opt_txt((#[trigger] t[i]).doc, "system_role"@) != Some(role),
        },
{
    if exists|i: int| role_hit(t, role, i) {
        let i = choose|i: int| role_hit(t, role, i);
        assert(t[i] == in_role(t, role)->0);
        assert forall|j: int| 0 <= j < i implies opt_txt(
            (#[trigger] t[j]).doc,
            "system_role"@,
        ) != Some(role) by {
            assert(role_of(t[j]) != Some(role));
        }
    } else {
        lemma_no_hit(t, role, t.len() as int);
    }
}

proof fn lemma_no_hit(t: Seq<Account<Text, JsonV>>, role: Text, n: int)
    requires
        0 <= n <= t.len(),
        !exists|i: int| role_hit(t, role, i),
    ensures
        forall|i: int| 0 <= i < n ==> role_of(#[trigger] t[i]) != Some(role),
    decreases n,
{
    if n > 0 {
        lemma_no_hit(t, role, n - 1);
        if role_of(t[n - 1]) == Some(role) {
            assert(role_hit(t, role, n - 1));
        }
    }
}

/// A posting moves its account alone: up by what is debited beyond what is credited where
/// the account's normal side is the debit side, and up by the opposite where it is not.
pub proof fn law_postings_move_their_account(
    t: Seq<Account<Text, JsonV>>,
    account: Text,
    debit: i64,
    credit: i64,
    i: int,
)
    requires
        distinct(t),
        0 <= i < t.len(),
    ensures
        posted_accounts(t, account, debit, credit) matches Ok(r) ==> {
            &&& r.len() == t.len()
            &&& r[i].id == t[i].id
            &&& r[i].doc == t[i].doc
            &&& t[i].id != account ==> r[i] == t[i]
            &&& t[i].id == account ==> r[i].balance_minor == t[i].balance_minor + (if opt_txt(
                t[i].doc,
                "normal"@,
            ) == Some("debit"@) {
                debit - credit
            } else {
                credit - debit
            })
        },
{
    lemma_has(t, account);
    if t[i].id == account {
        assert(t[i].key() == account);
        assert forall|j: int| 0 <= j < i implies (#[trigger] t[j]).key() != account by {
            assert(t[j].key() != t[i].key());
        }
        lemma_place(t, account, i);
    }
    if let Some(k) = place(t, account) {
        assert(t[k].key() == account);
    }
}

} // verus!

//! The final account rows: ascending by client, amounts rendered with their
//! trailing zeros stripped but never fewer than two fractional digits.

use crate::amount::{decimal_sum, checked_sum, Amount};
use crate::engine::{Account, ClientId, InputTransaction, PaymentEngine};
use crate::shard::{ids_owned, lemma_lane_count_irrelevant, sharded_accounts};
use rust_decimal::Decimal;
use std::collections::HashMap;
use vstd::prelude::*;

verus! {

broadcast use vstd::std_specs::hash::group_hash_axioms;

/// `a` with trailing zeros of the fraction stripped.
pub open spec fn normalized(a: Amount) -> Amount
    decreases a.scale,
{
    if a.scale > 0 && a.mantissa % 10 == 0 {
        normalized(Amount { mantissa: (a.mantissa / 10) as i128, scale: (a.scale - 1) as u32 })
    } else {
        a
    }
}

/// The same number with trailing zeros of the fraction stripped: as
/// `Decimal::normalize` does.
pub fn normalize(a: Amount) -> (r: Amount)
    requires
        a.wf(),
    ensures
        r == normalized(a),
        r.wf(),
{
    let mut m: i128 = a.mantissa;
    let mut s: u32 = a.scale;
    while s > 0 && m % 10 == 0
        invariant
            normalized(Amount { mantissa: m, scale: s }) == normalized(a),
            (Amount { mantissa: m, scale: s }).wf(),
        decreases s,
    {
        m = m / 10;
        s = s - 1;
    }
    Amount { mantissa: m, scale: s }
}

/// The text `Decimal`'s `Display` gives for `a`.
pub uninterp spec fn decimal_text(a: Amount) -> Seq<char>;

/// The text `Decimal`'s `Display` gives for `a` at a precision of two
/// fractional digits.
pub uninterp spec fn decimal_text_two_places(a: Amount) -> Seq<char>;

/// Relies on `Decimal`'s `Display`: the digits of the number at its scale.
#[verifier::external_body]
fn text_of(a: &Amount) -> (r: String)
    requires
        a.wf(),
    ensures
        r@ == decimal_text(*a),
{
    Decimal::from_i128_with_scale(a.mantissa, a.scale).to_string()
}

/// Relies on `Decimal`'s `Display` with a precision of two fractional digits.
#[verifier::external_body]
fn text_two_places(a: &Amount) -> (r: String)
    requires
        a.wf(),
    ensures
        r@ == decimal_text_two_places(*a),
{
    format!("{:.2}", Decimal::from_i128_with_scale(a.mantissa, a.scale))
}

/// The text of an amount in an output row: its normalized form, with at
/// least two fractional digits.
pub open spec fn rendered(a: Amount) -> Seq<char> {
    let n = normalized(a);
    if n.scale < 2 {
        decimal_text_two_places(n)
    } else {
        decimal_text(n)
    }
}

/// Renders an amount for output: trailing fractional zeros stripped, but
/// never fewer than two fractional digits.
pub fn render_amount(a: &Amount) -> (r: String)
    requires
        a.wf(),
    ensures
        r@ == rendered(*a),
{
    let n = normalize(*a);
    if n.scale < 2 {
        text_two_places(&n)
    } else {
        text_of(&n)
    }
}

/// One output row.
#[derive(Clone, Copy, Debug, PartialEq, Eq, Structural)]
pub struct OutputAccount {
    pub id: ClientId,
    pub available: Amount,
    pub held: Amount,
    pub total: Amount,
    pub locked: bool,
}

/// The row of an account whose total is `total`.
pub open spec fn output_row(a: Account, total: Amount) -> OutputAccount {
    OutputAccount { id: a.id, available: a.available, held: a.held, total, locked: a.locked }
}

impl OutputAccount {
    /// The row of an account; `None` where its total overflows.
    pub fn from_account(a: &Account) -> (r: Option<OutputAccount>)
        requires
            a.wf(),
        ensures
            r == (match decimal_sum(a.available, a.held) {
                Some(t) => Some(output_row(*a, t)),
                None => None,
            }),
    {
        match checked_sum(&a.available, &a.held) {
            Some(total) => Some(
                OutputAccount {
                    id: a.id,
                    available: a.available,
                    held: a.held,
                    total,
                    locked: a.locked,
                },
            ),
            None => None,
        }
    }
}

/// The rows of the accounts of clients below `n`, ascending by client;
/// `None` where a total overflows.
pub open spec fn rows_below(m: Map<ClientId, Account>, n: nat) -> Option<Seq<OutputAccount>>
    decreases n,
{
    if n == 0 {
        Some(Seq::empty())
    } else {
        let c = (n - 1) as ClientId;
        match rows_below(m, (n - 1) as nat) {
            None => None,
            Some(rows) => if m.contains_key(c) {
                match decimal_sum(m[c].available, m[c].held) {
                    Some(t) => Some(rows.push(output_row(m[c], t))),
                    None => None,
                }
            } else {
                Some(rows)
            },
        }
    }
}

/// The number of client ids.
pub const CLIENT_COUNT: u32 = 0x1_0000;

/// The rows of all accounts, ascending by client; `None` where a total
/// overflows.
pub open spec fn account_rows(m: Map<ClientId, Account>) -> Option<Seq<OutputAccount>> {
    rows_below(m, CLIENT_COUNT as nat)
}

/// The output rows of the accounts, ascending by client; `None` where an
/// account's total overflows.
pub fn export_accounts(accounts: &HashMap<ClientId, Account>) -> (r: Option<Vec<OutputAccount>>)
    requires
        forall|c: ClientId| #[trigger] accounts@.contains_key(c) ==> accounts@[c].wf(),
    ensures
        r matches Some(rows) ==> account_rows(accounts@) == Some(rows@),
        r is None ==> account_rows(accounts@) is None,
{
    let mut rows: Vec<OutputAccount> = Vec::new();
    let mut c: u32 = 0;
    while c < CLIENT_COUNT
        invariant
            c <= CLIENT_COUNT,
            rows_below(accounts@, c as nat) == Some(rows@),
            forall|x: ClientId| #[trigger] accounts@.contains_key(x) ==> accounts@[x].wf(),
        decreases CLIENT_COUNT - c,
    {
        let client = c as u16;
        assert(((c + 1) - 1) as ClientId == client);
        if let Some(a) = accounts.get(&client) {
            match OutputAccount::from_account(a) {
                Some(row) => rows.push(row),
                None => {
                    assert(rows_below(accounts@, (c + 1) as nat) is None);
                    proof {
                        lemma_rows_below_none(accounts@, (c + 1) as nat, CLIENT_COUNT as nat);
                    }
                    return None;
                },
            }
        }
        c = c + 1;
    }
    Some(rows)
}

/// Once a total overflows, the rows stay `None`.
proof fn lemma_rows_below_none(m: Map<ClientId, Account>, n: nat, n2: nat)
    requires
        n <= n2,
        rows_below(m, n) is None,
    ensures
        rows_below(m, n2) is None,
    decreases n2 - n,
{
    if n < n2 {
        lemma_rows_below_none(m, n, (n2 - 1) as nat);
    }
}

impl PaymentEngine {
    /// The output rows of this engine's accounts, ascending by client; `None`
    /// where an account's total overflows.
    pub fn export_accounts(&self) -> (r: Option<Vec<OutputAccount>>)
        requires
            self.wf(),
        ensures
            r matches Some(rows) ==> account_rows(self@.accounts) == Some(rows@),
            r is None ==> account_rows(self@.accounts) is None,
    {
        export_accounts(&self.accounts)
    }
}

/// The output rows, and so the output text, are the same whatever the
/// number of lanes, given that no transaction id is used by two clients.
pub proof fn lemma_rows_independent_of_lane_count(rs: Seq<InputTransaction>, n1: nat, n2: nat)
    requires
        n1 > 0,
        n2 > 0,
        ids_owned(rs),
    ensures
        account_rows(sharded_accounts(rs, n1)) == account_rows(sharded_accounts(rs, n2)),
{
    lemma_lane_count_irrelevant(rs, n1, n2);
}

} // verus!

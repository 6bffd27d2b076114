//! Reading one input record from its four (already trimmed) fields:
//! `type`, `client`, `tx` and `amount`. A record that does not fit the schema
//! is dropped.

use crate::amount::Amount;
use crate::engine::{ClientId, InputTransaction, TransactionId, TransactionType};
use rust_decimal::Decimal;
use vstd::prelude::*;
use vstd::string::StrSliceExecFns;

verus! {

/// The kind that a lowercase token names.
pub open spec fn token_type(s: Seq<char>) -> Option<TransactionType> {
    if s == "deposit"@ {
        Some(TransactionType::Deposit)
    } else if s == "withdrawal"@ {
        Some(TransactionType::Withdrawal)
    } else if s == "dispute"@ {
        Some(TransactionType::Dispute)
    } else if s == "resolve"@ {
        Some(TransactionType::Resolve)
    } else if s == "chargeback"@ {
        Some(TransactionType::Chargeback)
    } else {
        None
    }
}

/// Whether two texts are the same.
fn same_text(a: &str, b: &str) -> (r: bool)
    ensures
        r == (a@ == b@),
{
    let n = a.unicode_len();
    if n != b.unicode_len() {
        return false;
    }
    let mut i: usize = 0;
    while i < n
        invariant
            n == a@.len(),
            n == b@.len(),
            i <= n,
            a@.subrange(0, i as int) == b@.subrange(0, i as int),
        decreases n - i,
    {
        if a.get_char(i) != b.get_char(i) {
            return false;
        }
        assert(a@.subrange(0, i + 1) =~= a@.subrange(0, i as int).push(a@[i as int]));
        assert(b@.subrange(0, i + 1) =~= b@.subrange(0, i as int).push(b@[i as int]));
        i = i + 1;
    }
    assert(a@ =~= a@.subrange(0, n as int));
    assert(b@ =~= b@.subrange(0, n as int));
    true
}

impl TransactionType {
    /// The kind named by a token: `deposit`, `withdrawal`, `dispute`,
    /// `resolve` or `chargeback`, case-sensitive.
    pub fn from_token(s: &str) -> (r: Option<TransactionType>)
        ensures
            r == token_type(s@),
    {
        if same_text(s, "deposit") {
            Some(TransactionType::Deposit)
        } else if same_text(s, "withdrawal") {
            Some(TransactionType::Withdrawal)
        } else if same_text(s, "dispute") {
            Some(TransactionType::Dispute)
        } else if same_text(s, "resolve") {
            Some(TransactionType::Resolve)
        } else if same_text(s, "chargeback") {
            Some(TransactionType::Chargeback)
        } else {
            None
        }
    }
}

/// Whether `c` is an ASCII decimal digit.
pub open spec fn is_digit(c: char) -> bool {
    '0' <= c <= '9'
}

/// The number that a string of decimal digits writes.
pub open spec fn digits_value(s: Seq<char>) -> nat
    decreases s.len(),
{
    if s.len() == 0 {
        0
    } else {
        digits_value(s.drop_last()) * 10 + (s.last() as nat - '0' as nat) as nat
    }
}

/// The digits of an unsigned number in text: all of it, or all after a
/// leading `+`.
pub open spec fn unsigned_digits(s: Seq<char>) -> Seq<char> {
    if s.len() > 0 && s[0] == '+' {
        s.drop_first()
    } else {
        s
    }
}

/// The unsigned number that `s` writes, where it is one of at most `max`:
/// an optional `+`, then one or more decimal digits.
pub open spec fn unsigned_value(s: Seq<char>, max: nat) -> Option<nat> {
    let d = unsigned_digits(s);
    if d.len() > 0 && (forall|i: int| 0 <= i < d.len() ==> is_digit(#[trigger] d[i]))
        && digits_value(d) <= max {
        Some(digits_value(d))
    } else {
        None
    }
}

/// Digits never lose value when more follow.
proof fn lemma_digits_value_grows(s: Seq<char>, k: int)
    requires
        0 <= k <= s.len(),
        forall|i: int| 0 <= i < s.len() ==> is_digit(#[trigger] s[i]),
    ensures
        digits_value(s.subrange(0, k)) <= digits_value(s),
    decreases s.len() - k,
{
    if k < s.len() {
        lemma_digits_value_grows(s, k + 1);
        assert(s.subrange(0, k + 1).drop_last() =~= s.subrange(0, k));
    } else {
        assert(s.subrange(0, k) =~= s);
    }
}

/// The unsigned number that `s` writes, where it is one of at most `max`.
pub fn parse_unsigned(s: &str, max: u32) -> (r: Option<u32>)
    ensures
        r == (match unsigned_value(s@, max as nat) {
            Some(v) => Some(v as u32),
            None => None,
        }),
{
    let n = s.unicode_len();
    let start: usize = if n > 0 && s.get_char(0) == '+' {
        1
    } else {
        0
    };
    let ghost d = unsigned_digits(s@);
    assert(d =~= s@.subrange(start as int, n as int));
    if start >= n {
        return None;
    }
    let mut value: u64 = 0;
    let mut i: usize = start;
    while i < n
        invariant
            start <= i <= n,
            n == s@.len(),
            d == s@.subrange(start as int, n as int),
            d == unsigned_digits(s@),
            forall|j: int| 0 <= j < i - start ==> is_digit(#[trigger] d[j]),
            value == digits_value(d.subrange(0, i - start)),
            value <= max,
        decreases n - i,
    {
        let c = s.get_char(i);
        assert(d[i - start] == c);
        if !('0' <= c && c <= '9') {
            assert(!is_digit(d[i - start]));
            assert(!(forall|j: int| 0 <= j < d.len() ==> is_digit(#[trigger] d[j])));
            assert(unsigned_value(s@, max as nat) is None);
            return None;
        }
        assert(d.subrange(0, i + 1 - start).drop_last() =~= d.subrange(0, i - start));
        let next: u64 = value * 10 + (c as u64 - '0' as u64);
        if next > max as u64 {
            proof {
                assert(digits_value(d.subrange(0, i + 1 - start)) == next);
                if forall|j: int| 0 <= j < d.len() ==> is_digit(#[trigger] d[j]) {
                    lemma_digits_value_grows(d, i + 1 - start);
                }
                assert(unsigned_value(s@, max as nat) is None);
            }
            return None;
        }
        value = next;
        i = i + 1;
    }
    assert(d.subrange(0, n - start) =~= d);
    Some(value as u32)
}

/// What `Decimal`'s `FromStr` gives for a text: `None` where it is not a
/// number.
pub uninterp spec fn parsed_decimal(s: Seq<char>) -> Option<Amount>;

/// Relies on `Decimal`'s `FromStr`; a `Decimal` is always within range.
#[verifier::external_body]
fn parse_decimal(s: &str) -> (r: Option<Amount>)
    ensures
        r == parsed_decimal(s@),
        r matches Some(a) ==> a.wf(),
{
    s.parse::<Decimal>().ok().map(|d| Amount { mantissa: d.mantissa(), scale: d.scale() })
}

/// The record that four fields write, where each fits the schema: a kind
/// token, a client id, a transaction id, and an amount or nothing.
pub open spec fn record_of(kind: Seq<char>, client: Seq<char>, tx: Seq<char>, amount: Seq<char>) -> Option<InputTransaction> {
    match (
        token_type(kind),
        unsigned_value(client, 0xFFFF),
        unsigned_value(tx, 0xFFFF_FFFF),
    ) {
        (Some(t), Some(c), Some(id)) => if amount.len() == 0 {
            Some(
                InputTransaction {
                    transaction_type: t,
                    client_id: c as ClientId,
                    tx_id: id as TransactionId,
                    amount: None,
                },
            )
        } else {
            match parsed_decimal(amount) {
                Some(a) => Some(
                    InputTransaction {
                        transaction_type: t,
                        client_id: c as ClientId,
                        tx_id: id as TransactionId,
                        amount: Some(a),
                    },
                ),
                None => None,
            }
        },
        _ => None,
    }
}

/// Reads a record from its fields; `None` where one does not fit the schema.
pub fn parse_record(kind: &str, client: &str, tx: &str, amount: &str) -> (r: Option<
    InputTransaction,
>)
    ensures
        r == record_of(kind@, client@, tx@, amount@),
        r matches Some(t) ==> t.wf(),
{
    let t = match TransactionType::from_token(kind) {
        Some(t) => t,
        None => return None,
    };
    let c = match parse_unsigned(client, 0xFFFF) {
        Some(c) => c as u16,
        None => return None,
    };
    let id = match parse_unsigned(tx, 0xFFFF_FFFF) {
        Some(id) => id,
        None => return None,
    };
    if amount.unicode_len() == 0 {
        return Some(InputTransaction { transaction_type: t, client_id: c, tx_id: id, amount: None });
    }
    match parse_decimal(amount) {
        Some(a) => Some(
            InputTransaction { transaction_type: t, client_id: c, tx_id: id, amount: Some(a) },
        ),
        None => None,
    }
}

} // verus!

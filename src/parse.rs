//! The comma-separated text form of a transaction, one record per line:
//! `type, client, tx, amount`, each field with optional surrounding
//! whitespace.

use crate::amount::Amount;
use crate::transaction::{
    AmountChange, ChangeKind, ClientTransaction, DisputeKind, ParseFailure, Transaction,
    TransactionParseError,
};
use vstd::prelude::*;

verus! {

/// Whether `c` has the Unicode `White_Space` property.
pub open spec fn is_space(c: char) -> bool {
    ||| '\u{9}' <= c <= '\u{d}'
    ||| c == ' '
    ||| c == '\u{85}'
    ||| c == '\u{a0}'
    ||| c == '\u{1680}'
    ||| '\u{2000}' <= c <= '\u{200a}'
    ||| c == '\u{2028}'
    ||| c == '\u{2029}'
    ||| c == '\u{202f}'
    ||| c == '\u{205f}'
    ||| c == '\u{3000}'
}

/// The pieces of `s` between commas, in order; a text without commas is one
/// piece.
pub open spec fn pieces(s: Seq<char>) -> Seq<Seq<char>>
    decreases s.len(),
{
    if s.len() == 0 {
        seq![Seq::empty()]
    } else {
        let p = pieces(s.drop_last());
        if s.last() == ',' {
            p.push(Seq::empty())
        } else {
            p.update(p.len() - 1, p.last().push(s.last()))
        }
    }
}

/// `s` without its leading whitespace.
pub open spec fn trim_start(s: Seq<char>) -> Seq<char>
    decreases s.len(),
{
    if s.len() > 0 && is_space(s[0]) {
        trim_start(s.drop_first())
    } else {
        s
    }
}

/// `s` without its trailing whitespace.
pub open spec fn trim_end(s: Seq<char>) -> Seq<char>
    decreases s.len(),
{
    if s.len() > 0 && is_space(s.last()) {
        trim_end(s.drop_last())
    } else {
        s
    }
}

/// `s` without its leading and trailing whitespace.
pub open spec fn trim(s: Seq<char>) -> Seq<char> {
    trim_end(trim_start(s))
}

/// Whether `c` is an ASCII decimal digit.
pub open spec fn is_digit(c: char) -> bool {
    '0' <= c <= '9'
}

/// The value of the decimal digit `c`.
pub open spec fn digit_value(c: char) -> nat {
    ((c as u32) - ('0' as u32)) as nat
}

/// Whether every character of `s` is a decimal digit.
pub open spec fn all_digits(s: Seq<char>) -> bool {
    forall|i: int| 0 <= i < s.len() ==> is_digit(#[trigger] s[i])
}

/// The number written by the digits `s`, most significant first; zero for
/// no digits.
pub open spec fn digits_value(s: Seq<char>) -> nat
    decreases s.len(),
{
    if s.len() == 0 {
        0
    } else {
        digits_value(s.drop_last()) * 10 + digit_value(s.last())
    }
}

/// `s` without one leading `+`.
pub open spec fn unsigned_digits(s: Seq<char>) -> Seq<char> {
    if s.len() > 0 && s[0] == '+' {
        s.drop_first()
    } else {
        s
    }
}

/// The unsigned integer written as `s` if it is at most `max`: an optional
/// `+` and then one or more decimal digits.
pub open spec fn parse_unsigned(s: Seq<char>, max: nat) -> Option<nat> {
    let d = unsigned_digits(s);
    if d.len() > 0 && all_digits(d) && digits_value(d) <= max {
        Some(digits_value(d))
    } else {
        None
    }
}

/// Ten to the power `n`.
pub open spec fn pow10(n: nat) -> nat
    decreases n,
{
    if n == 0 {
        1
    } else {
        10 * pow10((n - 1) as nat)
    }
}

/// The position of the first `.` in `s`, or its length where it has none.
pub open spec fn point_index(s: Seq<char>) -> nat
    decreases s.len(),
{
    if s.len() == 0 || s[0] == '.' {
        0
    } else {
        1 + point_index(s.drop_first())
    }
}

/// The digits of `s` before its decimal point.
pub open spec fn whole_part(s: Seq<char>) -> Seq<char> {
    s.take(point_index(s) as int)
}

/// The digits of `s` after its decimal point; none where it has no point.
pub open spec fn fraction_part(s: Seq<char>) -> Seq<char> {
    if point_index(s) < s.len() {
        s.skip(point_index(s) + 1int)
    } else {
        Seq::empty()
    }
}

/// The fraction digits `f` in ten-thousandths, rounded to the nearest with
/// halves rounded up.
pub open spec fn fraction_scaled(f: Seq<char>) -> nat {
    let kept = if f.len() <= 4 { f } else { f.take(4) };
    let round = if f.len() > 4 && digit_value(f[4]) >= 5 { 1nat } else { 0nat };
    digits_value(kept) * pow10((4 - kept.len()) as nat) + round
}

/// `s` without one leading sign.
pub open spec fn unsigned_body(s: Seq<char>) -> Seq<char> {
    if s.len() > 0 && (s[0] == '+' || s[0] == '-') {
        s.drop_first()
    } else {
        s
    }
}

/// The amount written as `s`, in ten-thousandths: an optional sign, then
/// decimal digits with at most one decimal point among them, and at least one
/// digit. Digits past the fourth after the point round to the nearest
/// ten-thousandth, halves away from zero. A negative amount, or one past the
/// largest amount, is no amount.
pub open spec fn parse_amount(s: Seq<char>) -> Option<nat> {
    let body = unsigned_body(s);
    let whole = whole_part(body);
    let fraction = fraction_part(body);
    let magnitude = digits_value(whole) * 10000 + fraction_scaled(fraction);
    if !(all_digits(whole) && all_digits(fraction) && whole.len() + fraction.len() > 0) {
        None
    } else if s[0] == '-' && magnitude > 0 {
        None
    } else if magnitude > i64::MAX {
        None
    } else {
        Some(magnitude)
    }
}

/// The word that names a deposit.
pub open spec fn deposit_word() -> Seq<char> {
    seq!['d', 'e', 'p', 'o', 's', 'i', 't']
}

/// The word that names a withdrawal.
pub open spec fn withdrawal_word() -> Seq<char> {
    seq!['w', 'i', 't', 'h', 'd', 'r', 'a', 'w', 'a', 'l']
}

/// The word that names a dispute.
pub open spec fn dispute_word() -> Seq<char> {
    seq!['d', 'i', 's', 'p', 'u', 't', 'e']
}

/// The word that names a resolution.
pub open spec fn resolve_word() -> Seq<char> {
    seq!['r', 'e', 's', 'o', 'l', 'v', 'e']
}

/// The word that names a chargeback.
pub open spec fn chargeback_word() -> Seq<char> {
    seq!['c', 'h', 'a', 'r', 'g', 'e', 'b', 'a', 'c', 'k']
}

/// The word that starts a header line.
pub open spec fn header_word() -> Seq<char> {
    seq!['t', 'y', 'p', 'e']
}

/// The deposit or withdrawal of `kind` read from the fields `p`, with the
/// client and id already read.
pub open spec fn parse_change(
    p: Seq<Seq<char>>,
    client: u16,
    tx_id: u32,
    kind: ChangeKind,
) -> Result<ClientTransaction, ParseFailure> {
    if p.len() < 4 {
        Err(ParseFailure::MissingAmount)
    } else {
        match parse_amount(trim(p[3])) {
            Some(v) => Ok(
                ClientTransaction {
                    client,
                    tx: Transaction::Change {
                        tx_id,
                        change: AmountChange { kind, amount: Amount(v as i64) },
                    },
                },
            ),
            None => Err(ParseFailure::InvalidAmount(trim(p[3]))),
        }
    }
}

/// The transaction written on `line` as `type, client, tx, amount`, or what
/// is wrong with it. The fields are checked in order: client id, transaction
/// id, then the type, and the amount for a deposit or withdrawal only; fields
/// past the ones a type needs are ignored.
pub open spec fn parse_record(line: Seq<char>) -> Result<ClientTransaction, ParseFailure> {
    let p = pieces(line);
    let kind = trim(p[0]);
    if p.len() < 2 {
        Err(ParseFailure::MissingClientId)
    } else if parse_unsigned(trim(p[1]), u16::MAX as nat) is None {
        Err(ParseFailure::InvalidClientId(trim(p[1])))
    } else if p.len() < 3 {
        Err(ParseFailure::MissingTransactionId)
    } else if parse_unsigned(trim(p[2]), u32::MAX as nat) is None {
        Err(ParseFailure::InvalidTransactionId(trim(p[2])))
    } else {
        let client = parse_unsigned(trim(p[1]), u16::MAX as nat)->0 as u16;
        let tx_id = parse_unsigned(trim(p[2]), u32::MAX as nat)->0 as u32;
        let dispute = |k: DisputeKind|
            Ok(ClientTransaction { client, tx: Transaction::Dispute { kind: k, tx_id } });
        if kind == deposit_word() {
            parse_change(p, client, tx_id, ChangeKind::Deposit)
        } else if kind == withdrawal_word() {
            parse_change(p, client, tx_id, ChangeKind::Withdrawal)
        } else if kind == dispute_word() {
            dispute(DisputeKind::Initiate)
        } else if kind == resolve_word() {
            dispute(DisputeKind::Resolve)
        } else if kind == chargeback_word() {
            dispute(DisputeKind::Chargeback)
        } else {
            Err(ParseFailure::InvalidTransactionType(kind))
        }
    }
}

/// Whether the line at position `index` of a source carries no record: it is
/// blank, or it is the first line and starts with the header word.
pub open spec fn is_skipped(line: Seq<char>, index: nat) -> bool {
    let t = trim(line);
    t.len() == 0 || (index == 0 && t.len() >= 4 && t.take(4) == header_word())
}

/// Every text splits into at least one piece.
proof fn lemma_pieces_nonempty(s: Seq<char>)
    ensures
        pieces(s).len() >= 1,
    decreases s.len(),
{
    if s.len() > 0 {
        lemma_pieces_nonempty(s.drop_last());
    }
}

/// Fewer than `n` digits write a number below ten to the power `n`.
proof fn lemma_digits_value_bound(s: Seq<char>)
    requires
        all_digits(s),
    ensures
        digits_value(s) < pow10(s.len()),
    decreases s.len(),
{
    if s.len() > 0 {
        let init = s.drop_last();
        assert(all_digits(init)) by {
            assert forall|i: int| 0 <= i < init.len() implies is_digit(#[trigger] init[i]) by {
                assert(init[i] == s[i]);
            }
        }
        assert(is_digit(s[s.len() - 1]));
        lemma_digits_value_bound(init);
        assert(digits_value(s) == digits_value(init) * 10 + digit_value(s.last()));
        assert(pow10(s.len()) == 10 * pow10(init.len()));
        assert(digits_value(init) * 10 + digit_value(s.last()) < 10 * pow10(init.len()))
            by (nonlinear_arith)
            requires
                digits_value(init) < pow10(init.len()),
                digit_value(s.last()) < 10,
        ;
    }
}

/// Capping a number before a digit is appended to it changes nothing once the
/// result is capped again.
proof fn lemma_append_digit_capped(v: nat, d: nat, cap: nat)
    ensures
        vstd::math::min(vstd::math::min(v as int, cap as int) * 10 + d, cap as int)
            == vstd::math::min((v * 10 + d) as int, cap as int),
{
    if v >= cap {
        assert(v * 10 >= cap * 10) by (nonlinear_arith)
            requires
                v >= cap,
        ;
    }
}

/// The number written by the digits `s[start..end]`, capped at `cap`, or
/// `None` where one of them is no digit.
fn read_digits(s: &Vec<char>, start: usize, end: usize, cap: u64) -> (r: Option<u64>)
    requires
        start <= end <= s@.len(),
    ensures
        r is Some <==> all_digits(s@.subrange(start as int, end as int)),
        r matches Some(v) ==> v == vstd::math::min(
            digits_value(s@.subrange(start as int, end as int)) as int,
            cap as int,
        ),
{
    let mut acc: u64 = 0;
    let mut i: usize = start;
    while i < end
        invariant
            start <= i <= end <= s@.len(),
            all_digits(s@.subrange(start as int, i as int)),
            acc == vstd::math::min(digits_value(s@.subrange(start as int, i as int)) as int, cap as int),
        decreases end - i,
    {
        let c = s[i];
        let ghost prefix = s@.subrange(start as int, i as int);
        let ghost next = s@.subrange(start as int, i + 1);
        assert(next.drop_last() == prefix);
        assert(next.last() == c);
        if !('0' <= c && c <= '9') {
            assert(!is_digit(s@.subrange(start as int, end as int)[i - start]));
            return None;
        }
        let d = (c as u32 - '0' as u32) as u64;
        let wide = acc as u128 * 10 + d as u128;
        proof {
            lemma_append_digit_capped(digits_value(prefix), d as nat, cap as nat);
        }
        acc = if wide > cap as u128 { cap } else { wide as u64 };
        assert forall|j: int| 0 <= j < next.len() implies is_digit(#[trigger] next[j]) by {
            if j < prefix.len() {
                assert(next[j] == prefix[j]);
            }
        }
        i = i + 1;
    }
    Some(acc)
}

/// The unsigned integer written as `s[start..end]`, if it is at most `max`.
fn read_unsigned(s: &Vec<char>, start: usize, end: usize, max: u32) -> (r: Option<u32>)
    requires
        start <= end <= s@.len(),
    ensures
        match parse_unsigned(s@.subrange(start as int, end as int), max as nat) {
            Some(v) => r == Some(v as u32),
            None => r is None,
        },
{
    let ghost text = s@.subrange(start as int, end as int);
    let mut first = start;
    if start < end && s[start] == '+' {
        first = start + 1;
        assert(text.drop_first() == s@.subrange(first as int, end as int));
    }
    assert(unsigned_digits(text) == s@.subrange(first as int, end as int));
    if first == end {
        return None;
    }
    match read_digits(s, first, end, max as u64 + 1) {
        Some(v) => {
            if v <= max as u64 {
                Some(v as u32)
            } else {
                None
            }
        },
        None => None,
    }
}

fn point_index_in(s: &Vec<char>, start: usize, end: usize) -> (r: usize)
    requires
        start <= end <= s@.len(),
    ensures
        start <= r <= end,
        r - start == point_index(s@.subrange(start as int, end as int)),
{
    let mut i = start;
    while i < end && s[i] != '.'
        invariant
            start <= i <= end <= s@.len(),
            point_index(s@.subrange(start as int, end as int)) == (i - start) + point_index(
                s@.subrange(i as int, end as int),
            ),
        decreases end - i,
    {
        assert(s@.subrange(i as int, end as int).drop_first() == s@.subrange(i + 1, end as int));
        i = i + 1;
    }
    i
}

/// The fraction digits `s[start..end]` in ten-thousandths, or `None` where
/// one of them is no digit.
fn read_fraction(s: &Vec<char>, start: usize, end: usize) -> (r: Option<u64>)
    requires
        start <= end <= s@.len(),
    ensures
        r is Some <==> all_digits(s@.subrange(start as int, end as int)),
        r matches Some(v) ==> v == fraction_scaled(s@.subrange(start as int, end as int)),
        r matches Some(v) ==> v <= 10000,
{
    let ghost fraction = s@.subrange(start as int, end as int);
    if read_digits(s, start, end, 0).is_none() {
        return None;
    }
    let kept_end = if end - start <= 4 { end } else { start + 4 };
    let ghost kept = s@.subrange(start as int, kept_end as int);
    assert(kept == (if fraction.len() <= 4 { fraction } else { fraction.take(4) }));
    assert(all_digits(kept)) by {
        assert forall|i: int| 0 <= i < kept.len() implies is_digit(#[trigger] kept[i]) by {
            assert(kept[i] == fraction[i]);
        }
    }
    let kept_value = match read_digits(s, start, kept_end, 10000) {
        Some(v) => v,
        None => return None,
    };
    let kept_len = kept_end - start;
    proof {
        lemma_digits_value_bound(kept);
        reveal_with_fuel(pow10, 5);
        assert(pow10(0) == 1 && pow10(1) == 10 && pow10(2) == 100);
        assert(pow10(3) == 1000 && pow10(4) == 10000);
    }
    assert(kept_value == digits_value(kept));
    // the kept digits, padded with zeros to four places
    let padded: u64 = if kept_len == 0 {
        assert(kept.len() == 0);
        assert(digits_value(kept) == 0);
        assert(0 == digits_value(kept) * pow10((4 - kept.len()) as nat)) by (nonlinear_arith)
            requires
                digits_value(kept) == 0,
        ;
        0
    } else if kept_len == 1 {
        assert((4 - kept.len()) as nat == 3);
        assert(pow10((4 - kept.len()) as nat) == 1000);
        assert(kept_value * 1000 == digits_value(kept) * pow10((4 - kept.len()) as nat));
        kept_value * 1000
    } else if kept_len == 2 {
        assert((4 - kept.len()) as nat == 2);
        assert(pow10((4 - kept.len()) as nat) == 100);
        assert(kept_value * 100 == digits_value(kept) * pow10((4 - kept.len()) as nat));
        kept_value * 100
    } else if kept_len == 3 {
        assert((4 - kept.len()) as nat == 1);
        assert(pow10((4 - kept.len()) as nat) == 10);
        assert(kept_value * 10 == digits_value(kept) * pow10((4 - kept.len()) as nat));
        kept_value * 10
    } else {
        assert((4 - kept.len()) as nat == 0);
        assert(pow10((4 - kept.len()) as nat) == 1);
        assert(kept_value == digits_value(kept) * pow10((4 - kept.len()) as nat))
            by (nonlinear_arith)
            requires
                kept_value == digits_value(kept),
                pow10((4 - kept.len()) as nat) == 1,
        ;
        kept_value
    };
    assert(padded == digits_value(kept) * pow10((4 - kept.len()) as nat));
    let round: u64 = if end - start > 4 && s[start + 4] >= '5' {
        1
    } else {
        0
    };
    if end - start > 4 {
        assert(fraction[4] == s@[start + 4]);
        assert(is_digit(fraction[4]));
    }
    Some(padded + round)
}

/// The amount written as `s[start..end]`, in ten-thousandths.
fn read_amount(s: &Vec<char>, start: usize, end: usize) -> (r: Option<u64>)
    requires
        start <= end <= s@.len(),
    ensures
        match parse_amount(s@.subrange(start as int, end as int)) {
            Some(v) => r == Some(v as u64),
            None => r is None,
        },
{
    let ghost text = s@.subrange(start as int, end as int);
    if start == end {
        return None;
    }
    let negative = s[start] == '-';
    let mut first = start;
    if s[start] == '+' || s[start] == '-' {
        first = start + 1;
        assert(text.drop_first() == s@.subrange(first as int, end as int));
    }
    let ghost body = s@.subrange(first as int, end as int);
    assert(unsigned_body(text) == body);
    let point = point_index_in(s, first, end);
    assert(whole_part(body) == s@.subrange(first as int, point as int));
    let frac_start = if point < end { point + 1 } else { end };
    assert(fraction_part(body) == s@.subrange(frac_start as int, end as int));
    if point == first && frac_start == end {
        return None;
    }
    let cap: u64 = 0x8000_0000_0000_0000;
    let whole = match read_digits(s, first, point, cap) {
        Some(v) => v,
        None => return None,
    };
    let fraction = match read_fraction(s, frac_start, end) {
        Some(v) => v,
        None => return None,
    };
    let magnitude = whole as u128 * 10000 + fraction as u128;
    if negative && magnitude > 0 {
        return None;
    }
    if magnitude > 0x7fff_ffff_ffff_ffff {
        return None;
    }
    Some(magnitude as u64)
}

/// Whether `s[start..end]` is the word `w`.
fn is_word(s: &Vec<char>, start: usize, end: usize, w: &[char]) -> (r: bool)
    requires
        start <= end <= s@.len(),
    ensures
        r == (s@.subrange(start as int, end as int) == w@),
{
    if end - start != w.len() {
        return false;
    }
    let mut i: usize = 0;
    while i < w.len()
        invariant
            end - start == w@.len(),
            start <= end <= s@.len(),
            i <= w@.len(),
            s@.subrange(start as int, start + i) == w@.take(i as int),
        decreases w@.len() - i,
    {
        if s[start + i] != w[i] {
            assert(s@.subrange(start as int, end as int)[i as int] != w@[i as int]);
            return false;
        }
        assert(s@.subrange(start as int, start + i + 1) == s@.subrange(start as int, start + i).push(
            s@[start + i],
        ));
        assert(w@.take(i + 1) == w@.take(i as int).push(w@[i as int]));
        i = i + 1;
    }
    assert(w@.take(w@.len() as int) == w@);
    true
}

/// The characters `s[start..end]` as a string.
fn text_of(s: &str, start: usize, end: usize) -> (r: String)
    requires
        start <= end <= s@.len(),
    ensures
        r@ == s@.subrange(start as int, end as int),
{
    String::from_str(s.substring_char(start, end))
}

impl ClientTransaction {
    /// Read a transaction from its text form `type, client, tx, amount`.
    pub fn parse(line: &str) -> (r: Result<ClientTransaction, TransactionParseError>)
        ensures
            match r {
                Ok(t) => parse_record(line@) == Ok::<ClientTransaction, ParseFailure>(t),
                Err(e) => parse_record(line@) == Err::<ClientTransaction, ParseFailure>(e@),
            },
    {
        let chars = chars_of(line);
        let bounds = piece_bounds(&chars);
        let ghost p = pieces(line@);
        proof {
            lemma_pieces_nonempty(line@);
        }
        let (ks, ke) = trim_bounds(&chars, bounds[0].0, bounds[0].1);
        assert(chars@.subrange(ks as int, ke as int) == trim(p[0]));
        if bounds.len() < 2 {
            return Err(TransactionParseError::MissingClientId);
        }
        let (cs, ce) = trim_bounds(&chars, bounds[1].0, bounds[1].1);
        assert(chars@.subrange(cs as int, ce as int) == trim(p[1]));
        let client = match read_unsigned(&chars, cs, ce, 0xffff) {
            Some(v) => v as u16,
            None => return Err(TransactionParseError::InvalidClientId(text_of(line, cs, ce))),
        };
        if bounds.len() < 3 {
            return Err(TransactionParseError::MissingTransactionId);
        }
        let (ts, te) = trim_bounds(&chars, bounds[2].0, bounds[2].1);
        assert(chars@.subrange(ts as int, te as int) == trim(p[2]));
        let tx_id = match read_unsigned(&chars, ts, te, 0xffff_ffff) {
            Some(v) => v,
            None => return Err(TransactionParseError::InvalidTransactionId(text_of(line, ts, te))),
        };
        let deposit = is_word(&chars, ks, ke, &['d', 'e', 'p', 'o', 's', 'i', 't']);
        let withdrawal = is_word(
            &chars,
            ks,
            ke,
            &['w', 'i', 't', 'h', 'd', 'r', 'a', 'w', 'a', 'l'],
        );
        if deposit || withdrawal {
            if bounds.len() < 4 {
                return Err(TransactionParseError::MissingAmount);
            }
            let (as_, ae) = trim_bounds(&chars, bounds[3].0, bounds[3].1);
            assert(chars@.subrange(as_ as int, ae as int) == trim(p[3]));
            let amount = match read_amount(&chars, as_, ae) {
                Some(v) => Amount(v as i64),
                None => return Err(TransactionParseError::InvalidAmount(text_of(line, as_, ae))),
            };
            let kind = if deposit {
                ChangeKind::Deposit
            } else {
                ChangeKind::Withdrawal
            };
            return Ok(ClientTransaction { client, tx: Transaction::change(tx_id, kind, amount) });
        }
        let kind = if is_word(&chars, ks, ke, &['d', 'i', 's', 'p', 'u', 't', 'e']) {
            DisputeKind::Initiate
        } else if is_word(&chars, ks, ke, &['r', 'e', 's', 'o', 'l', 'v', 'e']) {
            DisputeKind::Resolve
        } else if is_word(&chars, ks, ke, &['c', 'h', 'a', 'r', 'g', 'e', 'b', 'a', 'c', 'k']) {
            DisputeKind::Chargeback
        } else {
            return Err(TransactionParseError::InvalidTransactionType(text_of(line, ks, ke)));
        };
        Ok(ClientTransaction { client, tx: Transaction::dispute(kind, tx_id) })
    }
}

impl core::str::FromStr for ClientTransaction {
    type Err = TransactionParseError;

    fn from_str(s: &str) -> (r: Result<ClientTransaction, TransactionParseError>)
        ensures
            match r {
                Ok(t) => parse_record(s@) == Ok::<ClientTransaction, ParseFailure>(t),
                Err(e) => parse_record(s@) == Err::<ClientTransaction, ParseFailure>(e@),
            },
    {
        ClientTransaction::parse(s)
    }
}

/// Read the line at position `index` of a source of records: `None` for a
/// blank line or a leading header, else the transaction it holds.
pub fn parse_line(line: &str, index: usize) -> (r: Result<
    Option<ClientTransaction>,
    TransactionParseError,
>)
    ensures
        is_skipped(line@, index as nat) ==> r is Ok && r->Ok_0 is None,
        !is_skipped(line@, index as nat) ==> match r {
            Ok(Some(t)) => parse_record(line@) == Ok::<ClientTransaction, ParseFailure>(t),
            Ok(None) => false,
            Err(e) => parse_record(line@) == Err::<ClientTransaction, ParseFailure>(e@),
        },
{
    let chars = chars_of(line);
    let (start, end) = trim_bounds(&chars, 0, chars.len());
    assert(chars@.subrange(0, chars@.len() as int) == line@);
    if start == end {
        return Ok(None);
    }
    if index == 0 && end - start >= 4 && is_word(&chars, start, start + 4, &['t', 'y', 'p', 'e']) {
        assert(chars@.subrange(start as int, start + 4) == trim(line@).take(4));
        return Ok(None);
    }
    if end - start >= 4 {
        assert(chars@.subrange(start as int, start + 4) == trim(line@).take(4));
    }
    match ClientTransaction::parse(line) {
        Ok(t) => Ok(Some(t)),
        Err(e) => Err(e),
    }
}

fn is_space_char(c: char) -> (r: bool)
    ensures
        r == is_space(c),
{
    ('\u{9}' <= c && c <= '\u{d}') || c == ' ' || c == '\u{85}' || c == '\u{a0}' || c == '\u{1680}'
        || ('\u{2000}' <= c && c <= '\u{200a}') || c == '\u{2028}' || c == '\u{2029}' || c
        == '\u{202f}' || c == '\u{205f}' || c == '\u{3000}'
}

/// The characters of `s`, in order.
fn chars_of(s: &str) -> (r: Vec<char>)
    ensures
        r@ == s@,
{
    let mut r: Vec<char> = Vec::new();
    for c in it: s.chars()
        invariant
            r@ == it.seq().take(it.index() as int),
    {
        r.push(c);
    }
    r
}

/// The bounds `(start, end)` in `s` of each piece between commas.
fn piece_bounds(s: &Vec<char>) -> (r: Vec<(usize, usize)>)
    ensures
        r@.len() == pieces(s@).len(),
        forall|k: int| #![trigger r@[k]] 0 <= k < r@.len() ==> r@[k].0 <= r@[k].1 && r@[k].1 <= s@.len(),
        forall|k: int|
            0 <= k < r@.len() ==> #[trigger] pieces(s@)[k] == s@.subrange(
                r@[k].0 as int,
                r@[k].1 as int,
            ),
{
    let mut r: Vec<(usize, usize)> = Vec::new();
    let mut start: usize = 0;
    let mut i: usize = 0;
    while i < s.len()
        invariant
            i <= s@.len(),
            start <= i,
            pieces(s@.take(i as int)).len() == r@.len() + 1,
            pieces(s@.take(i as int)).last() == s@.subrange(start as int, i as int),
            forall|k: int| #![trigger r@[k]] 0 <= k < r@.len() ==> r@[k].0 <= r@[k].1 && r@[k].1 <= i,
            forall|k: int|
                0 <= k < r@.len() ==> #[trigger] pieces(s@.take(i as int))[k] == s@.subrange(
                    r@[k].0 as int,
                    r@[k].1 as int,
                ),
        decreases s@.len() - i,
    {
        let c = s[i];
        let ghost before = pieces(s@.take(i as int));
        let ghost r0 = r@;
        let ghost start0 = start;
        let ghost i0 = i;
        proof {
            lemma_pieces_nonempty(s@.take(i as int));
            assert(s@.take(i + 1).drop_last() == s@.take(i as int));
            assert(s@.take(i + 1).last() == c);
        }
        if c == ',' {
            r.push((start, i));
            start = i + 1;
            assert(pieces(s@.take(i + 1)) == before.push(Seq::empty()));
        } else {
            assert(s@.subrange(start as int, i as int).push(c) == s@.subrange(
                start as int,
                i + 1,
            ));
            assert(pieces(s@.take(i + 1)) == before.update(before.len() - 1, before.last().push(c)));
        }
        i = i + 1;
        assert forall|k: int| #![trigger r@[k]] 0 <= k < r@.len() implies r@[k].0 <= r@[k].1 && r@[k].1 <= i by {
            if k < r0.len() {
                assert(r@[k] == r0[k]);
            } else {
                assert(r@[k] == (start0, i0));
            }
        }
        assert forall|k: int| 0 <= k < r@.len() implies #[trigger] pieces(s@.take(i as int))[k]
            == s@.subrange(r@[k].0 as int, r@[k].1 as int) by {
            if k < r0.len() {
                assert(r@[k] == r0[k]);
                assert(before[k] == s@.subrange(r0[k].0 as int, r0[k].1 as int));
                assert(pieces(s@.take(i as int))[k] == before[k]);
            } else {
                assert(k == before.len() - 1);
                assert(pieces(s@.take(i as int))[k] == before[k]);
            }
        }
    }
    assert(s@.take(s@.len() as int) == s@);
    let ghost r0 = r@;
    r.push((start, i));
    assert forall|k: int| 0 <= k < r@.len() implies #[trigger] pieces(s@)[k] == s@.subrange(
        r@[k].0 as int,
        r@[k].1 as int,
    ) by {
        if k < r0.len() {
            assert(r@[k] == r0[k]);
            assert(pieces(s@)[k] == s@.subrange(r0[k].0 as int, r0[k].1 as int));
        } else {
            assert(pieces(s@)[k] == s@.subrange(start as int, i as int));
        }
    }
    r
}

/// The bounds of `s[start..end]` without its leading and trailing whitespace.
fn trim_bounds(s: &Vec<char>, start: usize, end: usize) -> (r: (usize, usize))
    requires
        start <= end <= s@.len(),
    ensures
        start <= r.0 <= r.1 <= end,
        s@.subrange(r.0 as int, r.1 as int) == trim(s@.subrange(start as int, end as int)),
{
    let mut a = start;
    while a < end && is_space_char(s[a])
        invariant
            start <= a <= end <= s@.len(),
            trim_start(s@.subrange(start as int, end as int)) == trim_start(
                s@.subrange(a as int, end as int),
            ),
        decreases end - a,
    {
        assert(s@.subrange(a as int, end as int).drop_first() == s@.subrange(a + 1, end as int));
        a = a + 1;
    }
    let mut b = end;
    while b > a && is_space_char(s[b - 1])
        invariant
            start <= a <= b <= end <= s@.len(),
            trim(s@.subrange(start as int, end as int)) == trim_end(
                s@.subrange(a as int, b as int),
            ),
        decreases b - a,
    {
        assert(s@.subrange(a as int, b as int).drop_last() == s@.subrange(a as int, b - 1));
        b = b - 1;
    }
    (a, b)
}

} // verus!

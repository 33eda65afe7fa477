//! The validated fiscal identifier and its checksum algorithm.

use vstd::prelude::*;

use vstd::arithmetic::div_mod::lemma_breakdown;
use vstd::arithmetic::div_mod::lemma_div_denominator;
use vstd::arithmetic::div_mod::lemma_small_mod;

use crate::digits::all_digits;
use crate::digits::digit_value;
use crate::digits::digits_value;
use crate::digits::is_digit;
use crate::digits::lemma_digits_value_prefix_le;
use crate::digits::parse_unsigned;
use crate::digits::prefix_overflows;
use crate::digits::strip_sign;
use crate::digits::NumErr;
use crate::error::error_equiv;
use crate::error::Error;
use crate::kind::code_to_kind;
use crate::kind::kind_code;
use crate::kind::kind_weight;
use crate::kind::lemma_kind_code_round_trip;
use crate::kind::Kind;

verus! {

/// A validated Venezuelan fiscal identifier.
///
/// Anatomy of its textual form:
///
/// ```text
/// X - XXXXXXXXX - X
/// ^   ^________   ^
/// A       B       C
/// ```
///
/// A: the [`Kind`] of entity behind the identifier.
///
/// B: the payer identifier, conceptually nine decimal digits, zero-padded
/// on the left.
///
/// C: the check digit.
///
/// Both constructors validate the check digit, so no value of this type is
/// ever observed with a check digit other than the computed one.
#[derive(Clone, Copy, Debug, PartialEq, Eq, Structural)]
pub struct Rif {
    checksum_digit: u8,
    identifier: u32,
    kind: Kind,
}

/// The weighted sum at the heart of the checksum: the kind's weight stands
/// in for the leftmost of nine digit slots with multiplier four, and the
/// remaining eight slots hold the zero-padded payer identifier's lower
/// eight digits under the fixed multipliers 3, 2, 7, 6, 5, 4, 3, 2.
pub open spec fn weighted_sum(w: int, id: int) -> int {
    w * 4 + (id / 10000000 % 10) * 3 + (id / 1000000 % 10) * 2 + (id / 100000 % 10) * 7 + (id
        / 10000 % 10) * 6 + (id / 1000 % 10) * 5 + (id / 100 % 10) * 4 + (id / 10 % 10) * 3 + (id
        % 10) * 2
}

/// The check digit of a kind and payer identifier: `11 - (sum mod 11)`,
/// with results above nine (that is, remainders zero and one) mapped to
/// zero, as the national scheme defines.
pub open spec fn spec_check_digit(k: Kind, id: u32) -> int {
    let rem = weighted_sum(kind_weight(k), id as int) % 11;
    if 11 - rem > 9 {
        0
    } else {
        11 - rem
    }
}

/// Law: the checksum is total and always a single decimal digit, for every
/// kind and every payer identifier, including zero and the nine-digit
/// maximum.
pub proof fn lemma_check_digit_range(k: Kind, id: u32)
    ensures
        0 <= spec_check_digit(k, id) <= 9,
{
}

/// Ten to the `n`.
pub open spec fn pow10(n: nat) -> int
    decreases n,
{
    if n == 0 {
        1
    } else {
        10 * pow10((n - 1) as nat)
    }
}

/// The character of a single decimal digit.
pub open spec fn digit_char(d: int) -> char
    recommends
        0 <= d <= 9,
{
    if d == 0 {
        '0'
    } else if d == 1 {
        '1'
    } else if d == 2 {
        '2'
    } else if d == 3 {
        '3'
    } else if d == 4 {
        '4'
    } else if d == 5 {
        '5'
    } else if d == 6 {
        '6'
    } else if d == 7 {
        '7'
    } else if d == 8 {
        '8'
    } else {
        '9'
    }
}

/// The character of a digit is a digit character of that value.
pub proof fn lemma_digit_char(d: int)
    requires
        0 <= d <= 9,
    ensures
        is_digit(digit_char(d)),
        digit_value(digit_char(d)) == d,
{
}

/// The lowest `n` decimal digits of `v`, zero-padded to exactly `n`
/// characters, most significant first.
pub open spec fn pad_digits(v: int, n: nat) -> Seq<char>
    decreases n,
{
    if n == 0 {
        Seq::empty()
    } else {
        pad_digits(v / 10, (n - 1) as nat).push(digit_char(v % 10))
    }
}

/// Padded digits are all digits and read back as the value modulo ten to
/// the width.
pub proof fn lemma_pad_digits(v: int, n: nat)
    requires
        0 <= v,
    ensures
        pad_digits(v, n).len() == n,
        all_digits(pad_digits(v, n)),
        digits_value(pad_digits(v, n)) == v % pow10(n),
        pow10(n) >= 1,
    decreases n,
{
    if n == 0 {
        assert(pad_digits(v, 0) =~= Seq::<char>::empty());
    } else {
        let p = pow10((n - 1) as nat);
        lemma_pad_digits(v / 10, (n - 1) as nat);
        let s = pad_digits(v, n);
        let s0 = pad_digits(v / 10, (n - 1) as nat);
        assert(s.drop_last() =~= s0);
        assert(s.last() == digit_char(v % 10));
        lemma_digit_char(v % 10);
        assert forall|i: int| 0 <= i < s.len() implies is_digit(#[trigger] s[i]) by {
            if i < s0.len() {
                assert(s[i] == s0[i]);
            } else {
                assert(s[i] == digit_char(v % 10));
            }
        }
        assert(digits_value(s) == digits_value(s0) * 10 + (v % 10));
        lemma_breakdown(v, 10, p);
        assert(pow10(n) == 10 * p);
    }
}

/// The nine padded digits of a value, spelled out digit by digit.
pub proof fn lemma_pad_digits_nine(v: int)
    requires
        0 <= v,
    ensures
        pad_digits(v, 9) =~= seq![
            digit_char(v / 100000000 % 10),
            digit_char(v / 10000000 % 10),
            digit_char(v / 1000000 % 10),
            digit_char(v / 100000 % 10),
            digit_char(v / 10000 % 10),
            digit_char(v / 1000 % 10),
            digit_char(v / 100 % 10),
            digit_char(v / 10 % 10),
            digit_char(v % 10),
        ],
{
    reveal_with_fuel(pad_digits, 10);
    lemma_div_denominator(v, 10, 10);
    lemma_div_denominator(v, 100, 10);
    lemma_div_denominator(v, 1000, 10);
    lemma_div_denominator(v, 10000, 10);
    lemma_div_denominator(v, 100000, 10);
    lemma_div_denominator(v, 1000000, 10);
    lemma_div_denominator(v, 10000000, 10);
}

/// The canonical text of an identifier: the kind's uppercase code, the
/// payer id zero-padded to nine digits, and the check digit, joined by
/// dashes.
pub open spec fn spec_format(k: Kind, id: u32, d: u8) -> Seq<char> {
    kind_code(k) + seq!['-'] + pad_digits(id as int, 9) + seq!['-'] + seq![digit_char(d as int)]
}

/// The one-character string of a single decimal digit.
fn digit_str(d: u8) -> (r: &'static str)
    requires
        d <= 9,
    ensures
        r@ == seq![digit_char(d as int)],
{
    let r: &'static str = match d {
        0 => "0",
        1 => "1",
        2 => "2",
        3 => "3",
        4 => "4",
        5 => "5",
        6 => "6",
        7 => "7",
        8 => "8",
        _ => "9",
    };
    proof {
        reveal_strlit("0");
        reveal_strlit("1");
        reveal_strlit("2");
        reveal_strlit("3");
        reveal_strlit("4");
        reveal_strlit("5");
        reveal_strlit("6");
        reveal_strlit("7");
        reveal_strlit("8");
        reveal_strlit("9");
        assert(r@ =~= seq![digit_char(d as int)]);
    }
    r
}

/// The least index at or after `from` holding a dash, or the length of the
/// string when there is none.
pub open spec fn find_dash(s: Seq<char>, from: int) -> int
    decreases s.len() - from,
{
    if from < 0 || from >= s.len() {
        s.len() as int
    } else if s[from] == '-' {
        from
    } else {
        find_dash(s, from + 1)
    }
}

/// The string holds exactly two dashes, so it splits into exactly three
/// dash-separated segments.
pub open spec fn splits_into_three(s: Seq<char>) -> bool {
    &&& find_dash(s, 0) < s.len()
    &&& find_dash(s, find_dash(s, 0) + 1) < s.len()
    &&& find_dash(s, find_dash(s, find_dash(s, 0) + 1) + 1) == s.len()
}

/// The first segment: everything before the first dash.
pub open spec fn part_kind(s: Seq<char>) -> Seq<char> {
    s.take(find_dash(s, 0))
}

/// The middle segment: everything between the first and the second dash.
pub open spec fn part_identifier(s: Seq<char>) -> Seq<char> {
    s.subrange(find_dash(s, 0) + 1, find_dash(s, find_dash(s, 0) + 1))
}

/// The last segment: everything after the second dash.
pub open spec fn part_check(s: Seq<char>) -> Seq<char> {
    s.subrange(find_dash(s, find_dash(s, 0) + 1) + 1, s.len() as int)
}

/// A numeric segment that parses: an optional sign, at least one digit,
/// and a value of at most `max`.
pub open spec fn segment_value_ok(p: Seq<char>, max: int) -> bool {
    let t = strip_sign(p);
    t.len() > 0 && all_digits(t) && digits_value(t) <= max
}

/// The message of the shape error: the fixed text with the input appended.
pub open spec fn shape_message(s: Seq<char>) -> Seq<char> {
    "RIF must be splitted into 3 parts separated by dashes. Eg. J-123456789-1. Provided "@ + s
}

/// The message a defective payer-id segment produces, worded as the
/// standard library words its integer-parsing errors.
pub open spec fn num_error_message(p: Seq<char>) -> Seq<char> {
    if p.len() == 0 {
        "cannot parse integer from empty string"@
    } else if prefix_overflows(strip_sign(p), u32::MAX as int) {
        "number too large to fit in target type"@
    } else {
        "invalid digit found in string"@
    }
}

/// The full contract of validation. The stages run in a fixed order —
/// shape, check-digit segment, kind, payer id, checksum comparison — and
/// the first failing stage determines the error, payload included; when
/// every stage passes, the result is the validated identifier itself.
pub open spec fn parse_outcome_ok(s: Seq<char>, r: Result<Rif, Error>) -> bool {
    if !splits_into_three(s) {
        r matches Err(e) && (e matches Error::InvalidRif(m) && m@ == shape_message(s))
    } else {
        let p0 = part_kind(s);
        let p1 = part_identifier(s);
        let p2 = part_check(s);
        if !segment_value_ok(p2, u8::MAX as int) {
            r matches Err(e) && (e matches Error::InvalidCheckNum(m) && m@ == p2)
        } else if code_to_kind(p0) is None {
            r matches Err(e) && (e matches Error::InvalidRifKind(m) && m@ == p0)
        } else if !segment_value_ok(p1, u32::MAX as int) {
            r matches Err(e) && (e matches Error::InvalidRifIdentifier(m) && m@
                == num_error_message(p1))
        } else {
            let k = code_to_kind(p0)->Some_0;
            let id = digits_value(strip_sign(p1));
            let cd = digits_value(strip_sign(p2));
            if spec_check_digit(k, id as u32) != cd {
                r matches Err(e) && (e matches Error::UnexpectedCheckNum(exp, got) && exp as int
                    == spec_check_digit(k, id as u32) && got as int == cd)
            } else {
                r matches Ok(v) && v.spec_kind() == k && v.spec_identifier() as int == id
                    && v.spec_checksum_digit() as int == cd
            }
        }
    }
}

/// A segment with an overflowing digit prefix is not an accepted numeric
/// segment, and cannot be empty.
pub proof fn lemma_overflow_rejects(p: Seq<char>, max: int)
    requires
        0 <= max,
        prefix_overflows(strip_sign(p), max),
    ensures
        !segment_value_ok(p, max),
        p.len() > 0,
{
    let t = strip_sign(p);
    let k = choose|k: int|
        0 <= k <= t.len() && all_digits(#[trigger] t.take(k)) && digits_value(t.take(k)) > max;
    if t.len() > 0 && all_digits(t) && digits_value(t) <= max {
        assert(t.take(t.len() as int) =~= t);
        lemma_digits_value_prefix_le(t, k, t.len() as int);
        assert(false);
    }
    if p.len() == 0 {
        assert(t.take(k) =~= Seq::<char>::empty());
        assert(false);
    }
}

/// `find_dash` names exactly the first dash: a dash position (or the end)
/// with no dash before it, from `from` on, is what `find_dash` returns.
pub proof fn lemma_find_dash_at(s: Seq<char>, from: int, i: int)
    requires
        0 <= from <= i <= s.len(),
        i < s.len() ==> s[i] == '-',
        forall|j: int| from <= j < i ==> s[j] != '-',
    ensures
        find_dash(s, from) == i,
    decreases i - from,
{
    if from < i {
        lemma_find_dash_at(s, from + 1, i);
    }
}

/// Finds the first dash at or after `from`, the index that `find_dash`
/// names.
fn scan_dash(s: &str, from: usize) -> (idx: usize)
    requires
        from as int <= s@.len(),
    ensures
        idx as int == find_dash(s@, from as int),
        from <= idx && idx as int <= s@.len(),
{
    let n = s.unicode_len();
    let mut i: usize = from;
    while i < n
        invariant
            from <= i <= n,
            n == s@.len(),
            find_dash(s@, from as int) == find_dash(s@, i as int),
        decreases n - i,
    {
        if s.get_char(i) == '-' {
            return i;
        }
        i = i + 1;
    }
    n
}

/// Builds the shape error's message: the fixed text with the input
/// appended.
fn shape_error_message(rif: &str) -> (m: String)
    ensures
        m@ == shape_message(rif@),
{
    String::from_str(
        "RIF must be splitted into 3 parts separated by dashes. Eg. J-123456789-1. Provided ",
    ).concat(rif)
}

impl Rif {
    /// The stored check digit, for specifications.
    pub closed spec fn spec_checksum_digit(self) -> u8 {
        self.checksum_digit
    }

    /// The stored payer identifier, for specifications.
    pub closed spec fn spec_identifier(self) -> u32 {
        self.identifier
    }

    /// The stored kind, for specifications.
    pub closed spec fn spec_kind(self) -> Kind {
        self.kind
    }

    #[verifier::type_invariant]
    spec fn wf(self) -> bool {
        self.checksum_digit as int == spec_check_digit(self.kind, self.identifier)
    }

    /// Law: two identifiers are equal exactly when all three fields agree.
    pub proof fn lemma_eq_is_structural(a: Rif, b: Rif)
        ensures
            (a == b) <==> (a.spec_kind() == b.spec_kind() && a.spec_identifier()
                == b.spec_identifier() && a.spec_checksum_digit() == b.spec_checksum_digit()),
    {
    }

    /// Calculates the check digit for a kind and payer identifier.
    pub fn calc_checksum_digit(kind: &Kind, identifier: u32) -> (d: u8)
        ensures
            d as int == spec_check_digit(*kind, identifier),
            d <= 9,
    {
        let w = kind.checksum_digit();
        let sum: u32 = w * 4 + (identifier / 10000000 % 10) * 3 + (identifier / 1000000 % 10) * 2
            + (identifier / 100000 % 10) * 7 + (identifier / 10000 % 10) * 6 + (identifier / 1000
            % 10) * 5 + (identifier / 100 % 10) * 4 + (identifier / 10 % 10) * 3 + (identifier % 10)
            * 2;
        let rem = sum % 11;
        let digit = 11 - rem;
        if digit > 9 {
            0
        } else {
            digit as u8
        }
    }

    /// Creates a validated identifier from its three parts. Succeeds exactly
    /// when the supplied check digit is the computed one; otherwise reports
    /// the expected and the received digit.
    pub fn new(kind: Kind, identifier: u32, checksum_digit: u8) -> (r: Result<Rif, Error>)
        ensures
            if checksum_digit as int == spec_check_digit(kind, identifier) {
                r matches Ok(v) && v.spec_kind() == kind && v.spec_identifier() == identifier
                    && v.spec_checksum_digit() == checksum_digit
            } else {
                r matches Err(e) && (e matches Error::UnexpectedCheckNum(exp, got) && exp as int
                    == spec_check_digit(kind, identifier) && got == checksum_digit)
            },
    {
        let expected_checksum_digit = Rif::calc_checksum_digit(&kind, identifier);

        if expected_checksum_digit == checksum_digit {
            return Ok(Rif { checksum_digit, identifier, kind });
        }
        Err(Error::UnexpectedCheckNum(expected_checksum_digit, checksum_digit))
    }

    /// The kind of the identifier.
    pub fn kind(&self) -> (k: Kind)
        ensures
            k == self.spec_kind(),
    {
        self.kind
    }

    /// The payer identifier.
    pub fn identifier(&self) -> (id: u32)
        ensures
            id == self.spec_identifier(),
    {
        self.identifier
    }

    /// The check digit, always the one computed from the other two fields.
    pub fn checksum_digit(&self) -> (d: u8)
        ensures
            d == self.spec_checksum_digit(),
            d as int == spec_check_digit(self.spec_kind(), self.spec_identifier()),
    {
        proof {
            use_type_invariant(self);
        }
        self.checksum_digit
    }

    /// Validates a fiscal identifier given as text. The string must split
    /// into three dash-separated segments; then the check-digit segment,
    /// the kind and the payer id are parsed in that order, and last the
    /// check digit is compared against the computed one. The first failing
    /// stage determines the error, exactly as `parse_outcome_ok` lays down.
    pub fn validate(rif: &str) -> (r: Result<Rif, Error>)
        ensures
            parse_outcome_ok(rif@, r),
    {
        let n = rif.unicode_len();
        let d1 = scan_dash(rif, 0);
        if d1 == n {
            return Err(Error::InvalidRif(shape_error_message(rif)));
        }
        let d2 = scan_dash(rif, d1 + 1);
        if d2 == n {
            return Err(Error::InvalidRif(shape_error_message(rif)));
        }
        let d3 = scan_dash(rif, d2 + 1);
        if d3 != n {
            return Err(Error::InvalidRif(shape_error_message(rif)));
        }
        let p2 = rif.substring_char(d2 + 1, n);
        proof {
            assert(p2@ =~= part_check(rif@));
        }
        let cd_value = match parse_unsigned(p2, 255) {
            Ok(v) => v,
            Err(e) => {
                proof {
                    if e is Overflow {
                        lemma_overflow_rejects(p2@, 255);
                    }
                }
                return Err(Error::InvalidCheckNum(p2.to_owned()));
            },
        };
        let checksum_digit = cd_value as u8;
        let p0 = rif.substring_char(0, d1);
        proof {
            assert(p0@ =~= part_kind(rif@));
        }
        let kind = match Kind::parse(p0) {
            Ok(k) => k,
            Err(e) => {
                return Err(e);
            },
        };
        let p1 = rif.substring_char(d1 + 1, d2);
        proof {
            assert(p1@ =~= part_identifier(rif@));
        }
        let identifier = match parse_unsigned(p1, u32::MAX) {
            Ok(v) => v,
            Err(e) => {
                let m = match e {
                    NumErr::Empty => String::from_str("cannot parse integer from empty string"),
                    NumErr::InvalidDigit => String::from_str("invalid digit found in string"),
                    NumErr::Overflow => String::from_str("number too large to fit in target type"),
                };
                proof {
                    if e is Overflow {
                        lemma_overflow_rejects(p1@, u32::MAX as int);
                    }
                }
                return Err(Error::InvalidRifIdentifier(m));
            },
        };
        let expected_checksum_digit = Rif::calc_checksum_digit(&kind, identifier);
        if expected_checksum_digit != checksum_digit {
            return Err(Error::UnexpectedCheckNum(expected_checksum_digit, checksum_digit));
        }
        Ok(Rif { checksum_digit, identifier, kind })
    }

    /// Renders the identifier in canonical form: the uppercase code, the
    /// payer id zero-padded to nine digits, and the check digit, joined by
    /// dashes.
    pub fn to_rif_string(&self) -> (r: String)
        ensures
            r@ == spec_format(
                self.spec_kind(),
                self.spec_identifier(),
                self.spec_checksum_digit(),
            ),
    {
        proof {
            use_type_invariant(self);
            lemma_check_digit_range(self.kind, self.identifier);
        }
        let id = self.identifier;
        let mut out = self.kind.to_code();
        out.append("-");
        out.append(digit_str((id / 100000000 % 10) as u8));
        out.append(digit_str((id / 10000000 % 10) as u8));
        out.append(digit_str((id / 1000000 % 10) as u8));
        out.append(digit_str((id / 100000 % 10) as u8));
        out.append(digit_str((id / 10000 % 10) as u8));
        out.append(digit_str((id / 1000 % 10) as u8));
        out.append(digit_str((id / 100 % 10) as u8));
        out.append(digit_str((id / 10 % 10) as u8));
        out.append(digit_str((id % 10) as u8));
        out.append("-");
        out.append(digit_str(self.checksum_digit));
        proof {
            reveal_strlit("-");
            lemma_pad_digits_nine(id as int);
            assert(out@ =~= spec_format(
                self.spec_kind(),
                self.spec_identifier(),
                self.spec_checksum_digit(),
            ));
        }
        out
    }
}

impl core::str::FromStr for Rif {
    type Err = Error;

    fn from_str(s: &str) -> Result<Rif, Error> {
        Rif::validate(s)
    }
}

/// Law: the round trip. For every kind and every payer identifier of at
/// most nine digits, the computed check digit is a single digit, and the
/// canonical text built from the three parts validates back to exactly
/// that identifier.
pub proof fn lemma_format_validates_back(k: Kind, id: u32, d: u8)
    requires
        id <= 999999999,
        d as int == spec_check_digit(k, id),
    ensures
        forall|r: Result<Rif, Error>|
            #[trigger] parse_outcome_ok(spec_format(k, id, d), r) ==> (r matches Ok(v)
                && v.spec_kind() == k && v.spec_identifier() == id && v.spec_checksum_digit() == d),
{
    let s = spec_format(k, id, d);
    let code = kind_code(k);
    let pad = pad_digits(id as int, 9);
    let dch = seq![digit_char(d as int)];
    lemma_kind_code_round_trip(k);
    lemma_pad_digits(id as int, 9);
    lemma_check_digit_range(k, id);
    lemma_digit_char(d as int);
    assert(s.len() == 13);
    assert(s[1] == '-');
    assert(s[11] == '-');
    assert(s[0] == code[0] && s[0] != '-');
    assert forall|i: int| 2 <= i < 11 implies #[trigger] s[i] != '-' by {
        assert(s[i] == pad[i - 2]);
        assert(is_digit(pad[i - 2]));
    }
    assert(s[12] == digit_char(d as int) && s[12] != '-');
    lemma_find_dash_at(s, 0, 1);
    lemma_find_dash_at(s, 2, 11);
    lemma_find_dash_at(s, 12, 13);
    assert(splits_into_three(s));
    assert(part_kind(s) =~= code);
    assert(part_identifier(s) =~= pad);
    assert(part_check(s) =~= dch);
    // the check-digit segment holds the single digit d
    assert(dch[0] != '+');
    assert(strip_sign(dch) == dch);
    assert(dch.drop_last() =~= Seq::<char>::empty());
    assert(digits_value(dch.drop_last()) == 0);
    assert(dch.last() == digit_char(d as int));
    assert(digits_value(dch) == digits_value(dch.drop_last()) * 10 + digit_value(dch.last()));
    assert(digits_value(dch) == d as int);
    assert(segment_value_ok(part_check(s), u8::MAX as int));
    // the kind segment parses back to k
    assert(code_to_kind(part_kind(s)) == Some(k));
    // the payer-id segment reads back as id
    assert(pad[0] != '+');
    assert(strip_sign(pad) == pad);
    assert(pow10(9) == 1000000000) by {
        reveal_with_fuel(pow10, 10);
    }
    lemma_small_mod(id as nat, 1000000000 as nat);
    assert(digits_value(pad) == id as int);
    assert(segment_value_ok(part_identifier(s), u32::MAX as int));
    // the checksum agrees, so only the success branch is open
    assert(digits_value(strip_sign(part_identifier(s))) as u32 == id);
    assert forall|r: Result<Rif, Error>| #[trigger] parse_outcome_ok(s, r) implies (r matches Ok(v)
        && v.spec_kind() == k && v.spec_identifier() == id && v.spec_checksum_digit() == d) by {
    }
}

/// Law: validation is a pure function of its input — any two results the
/// contract admits for the same string are alike: equal identifiers on
/// success, the same error with the same content on failure.
pub proof fn lemma_validate_deterministic(
    s: Seq<char>,
    r1: Result<Rif, Error>,
    r2: Result<Rif, Error>,
)
    requires
        parse_outcome_ok(s, r1),
        parse_outcome_ok(s, r2),
    ensures
        match (r1, r2) {
            (Ok(a), Ok(b)) => a == b,
            (Err(a), Err(b)) => error_equiv(a, b),
            _ => false,
        },
{
}

} // verus!

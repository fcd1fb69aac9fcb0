//! Identity value objects: persisted records are keyed by 96-bit
//! identifiers written as 24 hex digits.
//!
//! An [`ObjectId`] is modelled by its numeric value. `parse` accepts
//! exactly the well-formed 24-digit hex strings (either letter case) and
//! `to_hex` renders the canonical lowercase form; rendering followed by
//! parsing gives the identifier back.

use vstd::arithmetic::div_mod::{
    lemma_basic_div, lemma_div_denominator, lemma_fundamental_div_mod,
};
use vstd::prelude::*;

use crate::error::RepoError;
use crate::text::push_char;

verus! {

/// One more than the largest identifier value: 16^24, the number of
/// 24-digit hex strings.
pub const OID_LIMIT: u128 = 0x1000000000000000000000000;

/// 16 raised to `n`.
pub open spec fn pow16(n: nat) -> int
    decreases n,
{
    if n == 0 {
        1
    } else {
        16 * pow16((n - 1) as nat)
    }
}

pub proof fn lemma_pow16_pos(n: nat)
    ensures
        pow16(n) >= 1,
    decreases n,
{
    if n > 0 {
        lemma_pow16_pos((n - 1) as nat);
    }
}

pub proof fn lemma_pow16_mono(a: nat, b: nat)
    requires
        a <= b,
    ensures
        pow16(a) <= pow16(b),
    decreases b,
{
    if a < b {
        lemma_pow16_mono(a, (b - 1) as nat);
        lemma_pow16_pos((b - 1) as nat);
    }
}

pub proof fn lemma_pow16_24()
    ensures
        pow16(24) == OID_LIMIT,
{
    reveal_with_fuel(pow16, 25);
}

/// Whether `c` is a hex digit, in either letter case.
pub open spec fn is_hex_digit(c: char) -> bool {
    (48 <= c as int && c as int <= 57)  // '0' ..= '9'
    || (97 <= c as int && c as int <= 102)  // 'a' ..= 'f'
    || (65 <= c as int && c as int <= 70)  // 'A' ..= 'F'
}

/// The numeric value of a hex digit.
pub open spec fn hex_digit_val(c: char) -> int {
    if 48 <= c as int && c as int <= 57 {
        c as int - 48
    } else if 97 <= c as int && c as int <= 102 {
        c as int - 87
    } else {
        c as int - 55
    }
}

/// The lowercase hex digit with value `d`.
pub open spec fn hex_char_of(d: int) -> char {
    if d == 0 {
        '0'
    } else if d == 1 {
        '1'
    } else if d == 2 {
        '2'
    } else if d == 3 {
        '3'
    } else if d == 4 {
        '4'
    } else if d == 5 {
        '5'
    } else if d == 6 {
        '6'
    } else if d == 7 {
        '7'
    } else if d == 8 {
        '8'
    } else if d == 9 {
        '9'
    } else if d == 10 {
        'a'
    } else if d == 11 {
        'b'
    } else if d == 12 {
        'c'
    } else if d == 13 {
        'd'
    } else if d == 14 {
        'e'
    } else {
        'f'
    }
}

/// The strings that parse as identifiers: exactly 24 hex digits.
pub open spec fn valid_oid_chars(s: Seq<char>) -> bool {
    s.len() == 24 && (forall|i: int| 0 <= i < s.len() ==> is_hex_digit(#[trigger] s[i]))
}

/// The numeric value of a hex digit string, most significant digit first.
pub open spec fn hex_seq_val(s: Seq<char>) -> int
    decreases s.len(),
{
    if s.len() == 0 {
        0
    } else {
        hex_seq_val(s.drop_last()) * 16 + hex_digit_val(s.last())
    }
}


/// The canonical digit at weight `k` of `v` (`k == 0` is the least
/// significant digit).
pub open spec fn oid_digit(v: u128, k: int) -> int {
    ((v as int) / pow16(k as nat)) % 16
}

/// The canonical 24-digit lowercase rendering of `v`.
pub open spec fn oid_digits(v: u128) -> Seq<char> {
    Seq::new(24, |i: int| hex_char_of(oid_digit(v, 23 - i)))
}

/// A unique, immutable handle for a persisted record.
#[derive(Clone, Copy, Debug, PartialEq, Eq, Structural)]
pub struct ObjectId {
    pub value: u128,
}

impl ObjectId {
    /// The numeric value behind the identifier.
    pub open spec fn spec_value(self) -> u128 {
        self.value
    }

    /// Well-formed identifiers fit in 24 hex digits.
    pub open spec fn wf(self) -> bool {
        self.value < OID_LIMIT
    }

    /// The identifier with numeric value `v`.
    pub open spec fn spec_from_value(v: u128) -> ObjectId {
        ObjectId { value: v }
    }

    /// Identifiers generated by the store come from a 64-bit counter.
    pub(crate) fn from_u64(v: u64) -> (r: ObjectId)
        ensures
            r == ObjectId::spec_from_value(v as u128),
            r.wf(),
    {
        proof {
            lemma_pow16_24();
        }
        ObjectId { value: v as u128 }
    }

    /// Parses an identifier string; fails with `InvalidIdentifier` on
    /// exactly the strings that are not 24 hex digits.
    pub fn parse(s: &str) -> (r: Result<ObjectId, RepoError>)
        ensures
            r is Ok <==> valid_oid_chars(s@),
            r matches Ok(o) ==> o.spec_value() == hex_seq_val(s@) && o.wf(),
            r is Err ==> r == Err::<ObjectId, RepoError>(RepoError::InvalidIdentifier),
    {
        let n = s.unicode_len();
        if n != 24 {
            return Err(RepoError::InvalidIdentifier);
        }
        let mut value: u128 = 0;
        let mut i: usize = 0;
        while i < 24
            invariant
                0 <= i <= 24,
                s@.len() == 24,
                forall|j: int| 0 <= j < i ==> is_hex_digit(#[trigger] s@[j]),
                value == hex_seq_val(s@.subrange(0, i as int)),
                value < pow16(i as nat),
            decreases 24 - i,
        {
            let c = s.get_char(i);
            let d = match hex_val_of(c) {
                Some(d) => d,
                None => {
                    return Err(RepoError::InvalidIdentifier);
                },
            };
            proof {
                lemma_pow16_24();
                lemma_pow16_mono((i + 1) as nat, 24);
                lemma_pow16_pos(i as nat);
                assert(value * 16 + d < 16 * pow16(i as nat)) by (nonlinear_arith)
                    requires
                        0 <= value < pow16(i as nat),
                        0 <= d < 16,
                        pow16(i as nat) >= 1,
                {
                }
                assert(16 * pow16(i as nat) == pow16((i + 1) as nat));
            }
            let ghost prev = s@.subrange(0, i as int);
            value = value * 16 + (d as u128);
            proof {
                let t = s@.subrange(0, i + 1);
                assert(t.drop_last() =~= prev);
                assert(t.last() == s@[i as int]);
            }
            i = i + 1;
        }
        proof {
            assert(s@.subrange(0, 24) =~= s@);
            lemma_pow16_24();
        }
        Ok(ObjectId { value })
    }

    /// Renders the canonical lowercase hex form; parsing it back gives
    /// the same identifier.
    pub fn to_hex(&self) -> (r: String)
        ensures
            r@ == oid_digits(self.spec_value()),
            valid_oid_chars(r@),
            self.wf() ==> hex_seq_val(r@) == self.spec_value(),
    {
        let ghost v = self.value;
        let mut buf: Vec<char> = Vec::new();
        let mut cur: u128 = self.value;
        let mut k: usize = 0;
        while k < 24
            invariant
                0 <= k <= 24,
                buf@.len() == k,
                cur == (v as int) / pow16(k as nat),
                forall|j: int| 0 <= j < k ==> buf@[j] == hex_char_of(oid_digit(v, j)),
            decreases 24 - k,
        {
            let d: u128 = cur % 16;
            buf.push(hex_char_exec((d % 16) as u8));
            proof {
                lemma_pow16_pos(k as nat);
                lemma_div_denominator(v as int, pow16(k as nat), 16);
                assert(pow16(k as nat) * 16 == pow16((k + 1) as nat));
            }
            cur = cur / 16;
            k = k + 1;
        }
        let mut out = String::new();
        let mut i: usize = 0;
        while i < 24
            invariant
                0 <= i <= 24,
                buf@.len() == 24,
                out@.len() == i,
                forall|j: int| 0 <= j < 24 ==> buf@[j] == hex_char_of(oid_digit(v, j)),
                forall|j: int| 0 <= j < i ==> out@[j] == buf@[23 - j],
            decreases 24 - i,
        {
            let c = buf[23 - i];
            push_char(&mut out, c);
            i = i + 1;
        }
        proof {
            assert(out@ =~= oid_digits(v));
            assert forall|j: int| 0 <= j < 24 implies is_hex_digit(#[trigger] oid_digits(v)[j]) by {
                let d = oid_digit(v, 23 - j);
                assert(0 <= d < 16);
            }
            if self.wf() {
                lemma_oid_digits_val(v);
            }
        }
        out
    }
}

fn hex_val_of(c: char) -> (r: Option<u8>)
    ensures
        r is Some <==> is_hex_digit(c),
        r matches Some(d) ==> d == hex_digit_val(c) && d < 16,
{
    let u = c as u32;
    if 48 <= u && u <= 57 {
        Some((u - 48) as u8)
    } else if 97 <= u && u <= 102 {
        Some((u - 87) as u8)
    } else if 65 <= u && u <= 70 {
        Some((u - 55) as u8)
    } else {
        None
    }
}

fn hex_char_exec(d: u8) -> (r: char)
    requires
        d < 16,
    ensures
        r == hex_char_of(d as int),
{
    match d {
        0 => '0',
        1 => '1',
        2 => '2',
        3 => '3',
        4 => '4',
        5 => '5',
        6 => '6',
        7 => '7',
        8 => '8',
        9 => '9',
        10 => 'a',
        11 => 'b',
        12 => 'c',
        13 => 'd',
        14 => 'e',
        _ => 'f',
    }
}

/// The canonical rendering is itself a well-formed identifier string.
pub proof fn lemma_oid_digits_valid(v: u128)
    ensures
        valid_oid_chars(oid_digits(v)),
{
    assert forall|j: int| 0 <= j < 24 implies is_hex_digit(#[trigger] oid_digits(v)[j]) by {
        let d = oid_digit(v, 23 - j);
        assert(0 <= d < 16);
    }
}

/// Rendering is the inverse of the digit-string value: the canonical
/// digits of a well-formed value read back as that value.
pub proof fn lemma_oid_digits_val(v: u128)
    requires
        v < OID_LIMIT,
    ensures
        hex_seq_val(oid_digits(v)) == v,
{
    lemma_pow16_24();
    lemma_oid_digits_val_rec(v, 24);
    assert(oid_digits(v).subrange(0, 24) =~= oid_digits(v));
}

proof fn lemma_oid_digits_val_rec(v: u128, k: int)
    requires
        0 <= k <= 24,
        v < OID_LIMIT,
    ensures
        hex_seq_val(oid_digits(v).subrange(0, k)) == (v as int) / pow16((24 - k) as nat),
    decreases k,
{
    lemma_pow16_24();
    if k == 0 {
        assert(oid_digits(v).subrange(0, 0) =~= Seq::<char>::empty());
        lemma_basic_div(v as int, pow16(24));
    } else {
        lemma_oid_digits_val_rec(v, k - 1);
        let s = oid_digits(v).subrange(0, k);
        assert(s.drop_last() =~= oid_digits(v).subrange(0, k - 1));
        assert(s.last() == hex_char_of(oid_digit(v, 24 - k)));
        let b = pow16((24 - k) as nat);
        lemma_pow16_pos((24 - k) as nat);
        let q = (v as int) / b;
        lemma_div_denominator(v as int, b, 16);
        assert(b * 16 == pow16((24 - k + 1) as nat));
        assert((v as int) / pow16((25 - k) as nat) == q / 16);
        let d = oid_digit(v, 24 - k);
        assert(d == q % 16);
        assert(0 <= d < 16);
        assert(hex_digit_val(hex_char_of(d)) == d);
        lemma_fundamental_div_mod(q, 16);
        assert(hex_seq_val(s) == (q / 16) * 16 + q % 16);
    }
}

} // verus!

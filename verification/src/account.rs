//! Accounts: the identity of a contract and the name of its storage.
//!
//! An account is a number. As text it is written in decimal; text is read
//! back as an optional `+` followed by decimal digits.

use crate::error::SimpleVMError;
use crate::text::{is_ascii_bytes, lemma_ascii_bytes_are_text, string_from_utf8, utf8};
use vstd::prelude::*;

verus! {

/// The number of an account. Numbers are handed out in rising order and
/// never used twice.
#[derive(Copy, Clone, PartialEq, Eq, PartialOrd, Ord, Hash, Debug, Structural)]
pub struct BankAccount(pub u32);

/// The byte `0`.
pub const DIGIT_ZERO: u8 = 48;

/// The byte `9`.
pub const DIGIT_NINE: u8 = 57;

/// The byte `+`.
pub const PLUS_SIGN: u8 = 43;

/// Whether `byte` is a decimal digit.
pub open spec fn is_digit(byte: u8) -> bool {
    DIGIT_ZERO <= byte <= DIGIT_NINE
}

/// Whether every byte is a decimal digit.
pub open spec fn all_digits(bytes: Seq<u8>) -> bool {
    forall|i: int| 0 <= i < bytes.len() ==> is_digit(#[trigger] bytes[i])
}

/// The number that decimal digits spell, the most significant first.
pub open spec fn digits_value(digits: Seq<u8>) -> int
    decreases digits.len(),
{
    if digits.len() == 0 {
        0
    } else {
        digits_value(digits.drop_last()) * 10 + (digits.last() - DIGIT_ZERO)
    }
}

/// `text` without the `+` it may begin with.
pub open spec fn without_sign(text: Seq<u8>) -> Seq<u8> {
    if text.len() > 0 && text[0] == PLUS_SIGN {
        text.subrange(1, text.len() as int)
    } else {
        text
    }
}

/// The account that the bytes of a text spell: an optional `+`, then one or
/// more decimal digits whose value fits in 32 bits. `None` for any other
/// text.
pub open spec fn account_of(text: Seq<u8>) -> Option<BankAccount> {
    let digits = without_sign(text);
    if digits.len() > 0 && all_digits(digits) && digits_value(digits) <= u32::MAX {
        Some(BankAccount(digits_value(digits) as u32))
    } else {
        None
    }
}

/// The decimal digits of `n`, without sign or leading zeros.
pub open spec fn decimal(n: nat) -> Seq<u8>
    decreases n,
{
    if n < 10 {
        seq![(DIGIT_ZERO + n) as u8]
    } else {
        decimal(n / 10).push((DIGIT_ZERO + n % 10) as u8)
    }
}

/// Digits spell a number that is not negative, and a number no smaller than
/// any of their prefixes spells.
pub proof fn lemma_digits_value_grows(digits: Seq<u8>, n: int)
    requires
        all_digits(digits),
        0 <= n <= digits.len(),
    ensures
        0 <= digits_value(digits.subrange(0, n)) <= digits_value(digits),
    decreases digits.len(),
{
    if digits.len() == 0 {
        assert(digits.subrange(0, n) =~= digits);
    } else if n == digits.len() {
        assert(digits.subrange(0, n) =~= digits);
        lemma_digits_value_grows(digits.drop_last(), n - 1);
        assert(is_digit(digits.last()));
    } else {
        assert(all_digits(digits.drop_last())) by {
            assert forall|i: int| 0 <= i < digits.drop_last().len() implies is_digit(
                #[trigger] digits.drop_last()[i],
            ) by {
                assert(is_digit(digits[i]));
            }
        }
        lemma_digits_value_grows(digits.drop_last(), n);
        assert(digits.drop_last().subrange(0, n) =~= digits.subrange(0, n));
        assert(is_digit(digits.last()));
    }
}

/// The decimal digits of a number are digits, at least one, with no sign
/// before them, and they spell the number.
pub proof fn lemma_decimal_spells(n: nat)
    ensures
        decimal(n).len() > 0,
        all_digits(decimal(n)),
        is_ascii_bytes(decimal(n)),
        digits_value(decimal(n)) == n,
        without_sign(decimal(n)) == decimal(n),
    decreases n,
{
    if n < 10 {
        let d = decimal(n);
        assert(d.drop_last() =~= Seq::<u8>::empty());
        assert(digits_value(d.drop_last()) == 0);
    } else {
        lemma_decimal_spells(n / 10);
        let head = decimal(n / 10);
        let d = decimal(n);
        assert(d.drop_last() =~= head);
        assert(d[0] == head[0]);
        assert(is_digit(head[0]));
        assert forall|i: int| 0 <= i < d.len() implies is_digit(#[trigger] d[i]) by {
            if i < head.len() {
                assert(d[i] == head[i]);
                assert(is_digit(head[i]));
            }
        }
    }
    assert forall|i: int| 0 <= i < decimal(n).len() implies #[trigger] decimal(n)[i] < 128 by {
        assert(is_digit(decimal(n)[i]));
    }
}

/// Reading the decimal text of an account gives the account back.
pub proof fn lemma_account_of_decimal(account: BankAccount)
    ensures
        account_of(decimal(account.0 as nat)) == Some(account),
{
    lemma_decimal_spells(account.0 as nat);
}

/// Reads an account from the bytes of a text.
pub fn account_from_bytes(text: &[u8]) -> (account: Option<BankAccount>)
    ensures
        account == account_of(text@),
{
    let n = text.len();
    let start: usize = if n > 0 && text[0] == PLUS_SIGN {
        1
    } else {
        0
    };
    if start == n {
        return None;
    }
    let ghost digits = without_sign(text@);
    assert(digits =~= text@.subrange(start as int, n as int));
    let mut value: u64 = 0;
    let mut i: usize = start;
    assert(digits.subrange(0, 0) =~= Seq::<u8>::empty());
    while i < n
        invariant
            start <= i <= n,
            n == text@.len(),
            digits == text@.subrange(start as int, n as int),
            digits == without_sign(text@),
            all_digits(digits.subrange(0, i - start)),
            value == digits_value(digits.subrange(0, i - start)),
            value <= u32::MAX,
        decreases n - i,
    {
        let byte = text[i];
        assert(byte == digits[i - start]);
        if byte < DIGIT_ZERO || byte > DIGIT_NINE {
            assert(!is_digit(digits[i - start]));
            return None;
        }
        let next: u64 = value * 10 + (byte - DIGIT_ZERO) as u64;
        proof {
            let longer = digits.subrange(0, i - start + 1);
            assert(longer.drop_last() =~= digits.subrange(0, i - start));
            assert(longer.last() == byte);
            assert(next == digits_value(longer));
            assert forall|k: int| 0 <= k < longer.len() implies is_digit(#[trigger] longer[k]) by {
                if k < i - start {
                    assert(longer[k] == digits.subrange(0, i - start)[k]);
                }
            }
        }
        if next > 0xFFFF_FFFF {
            proof {
                if all_digits(digits) {
                    lemma_digits_value_grows(digits, i - start + 1);
                }
            }
            return None;
        }
        value = next;
        i = i + 1;
    }
    assert(digits.subrange(0, n - start) =~= digits);
    Some(BankAccount(value as u32))
}

impl BankAccount {
    /// Reads an account from text: an optional `+`, then decimal digits
    /// whose value fits in 32 bits. Any other text is refused with
    /// `InvalidAccountFormat`.
    pub fn from_str(s: &str) -> (r: Result<BankAccount, SimpleVMError>)
        ensures
            r == match account_of(utf8(s@)) {
                Some(account) => Ok::<BankAccount, SimpleVMError>(account),
                None => Err(SimpleVMError::InvalidAccountFormat),
            },
    {
        match account_from_bytes(s.as_bytes()) {
            Some(account) => Ok(account),
            None => Err(SimpleVMError::InvalidAccountFormat),
        }
    }

    /// Reads an account from text, as [`BankAccount::from_str`] does.
    pub fn try_from(value: String) -> (r: Result<BankAccount, SimpleVMError>)
        ensures
            r == match account_of(utf8(value@)) {
                Some(account) => Ok::<BankAccount, SimpleVMError>(account),
                None => Err(SimpleVMError::InvalidAccountFormat),
            },
    {
        BankAccount::from_str(value.as_str())
    }

    /// The account as text: its number in decimal.
    pub fn to_addr(&self) -> (text: String)
        ensures
            utf8(text@) == decimal(self.0 as nat),
            account_of(utf8(text@)) == Some(*self),
    {
        let mut rest: u32 = self.0 / 10;
        let mut digits: Vec<u8> = vec![DIGIT_ZERO + (self.0 % 10) as u8];
        assert(digits@ =~= seq![(DIGIT_ZERO + self.0 % 10) as u8]);
        while rest > 0
            invariant
                decimal(self.0 as nat) == if rest > 0 {
                    decimal(rest as nat) + digits@
                } else {
                    digits@
                },
            decreases rest,
        {
            let digit: u8 = DIGIT_ZERO + (rest % 10) as u8;
            let ghost before = digits@;
            digits.insert(0, digit);
            proof {
                assert(digits@ =~= seq![digit] + before);
                if rest >= 10 {
                    assert(decimal(rest as nat) + before =~= decimal((rest / 10) as nat)
                        + digits@);
                } else {
                    assert(decimal(rest as nat) + before =~= digits@);
                }
            }
            rest = rest / 10;
        }
        proof {
            lemma_decimal_spells(self.0 as nat);
            lemma_ascii_bytes_are_text(digits@);
            lemma_account_of_decimal(*self);
        }
        string_from_utf8(digits).unwrap()
    }
}

} // verus!

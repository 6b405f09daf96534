//! The address codec: a reversible scrambling of account text into
//! canonical addresses of a fixed length.
//!
//! To canonicalize, the bytes of the lowercased text are padded with zero
//! bytes to the canonical length, rotated left by an amount that depends
//! on their sum, and riffled a number of times. To humanize, the address
//! is riffled until the riffles complete a full period, rotated back, and
//! stripped of its zero bytes; what is left is read as text.

use crate::account::{
    account_from_bytes, account_of, decimal, is_digit, lemma_account_of_decimal,
    lemma_decimal_spells, BankAccount,
};
use crate::error::SimpleVMError;
use crate::text::{lowercase, string_from_utf8, to_lowercase, utf8};
use vstd::prelude::*;
use vstd::string::StrSliceExecFns;
use vstd::utf8::{decode_utf8, valid_utf8};

verus! {

/// The length of every canonical address, in bytes.
pub const CANONICAL_LENGTH: usize = 54;

/// The least length of the text of an address, in bytes.
pub const MINIMUM_LENGTH: usize = 3;

/// How often canonicalizing riffles.
pub const SHUFFLES_ENCODE: usize = 18;

/// How often humanizing riffles. Together with the riffles of the encoder
/// these make one full period of the riffle at the canonical length.
pub const SHUFFLES_DECODE: usize = 2;

/// A canonical address: the scrambled bytes of an account's text.
#[derive(Clone, PartialEq, Eq, Debug)]
pub struct CanonicalAddress(pub Vec<u8>);

impl CanonicalAddress {
    /// Takes any bytes as a canonical address. Whether they are one shows
    /// when the address is humanized.
    pub fn try_from(value: Vec<u8>) -> (r: Result<CanonicalAddress, SimpleVMError>)
        ensures
            r == Ok::<CanonicalAddress, SimpleVMError>(CanonicalAddress(value)),
    {
        Ok(CanonicalAddress(value))
    }
}

impl From<CanonicalAddress> for Vec<u8> {
    fn from(addr: CanonicalAddress) -> (bytes: Vec<u8>) {
        addr.0
    }
}

impl vstd::std_specs::convert::FromSpecImpl<CanonicalAddress> for Vec<u8> {
    open spec fn obeys_from_spec() -> bool {
        true
    }

    /// The bytes of the address.
    open spec fn from_spec(addr: CanonicalAddress) -> Vec<u8> {
        addr.0
    }
}

/// The sum of all bytes.
pub open spec fn byte_sum(bytes: Seq<u8>) -> nat
    decreases bytes.len(),
{
    if bytes.len() == 0 {
        0
    } else {
        byte_sum(bytes.drop_last()) + bytes.last() as nat
    }
}

/// The perfect riffle of an even number of items: the two halves
/// interleaved, an item of the second half first.
pub open spec fn riffled<T>(items: Seq<T>) -> Seq<T> {
    let mid = items.len() / 2;
    Seq::new(
        2 * mid,
        |j: int|
            if j % 2 == 0 {
                items[mid + j / 2]
            } else {
                items[j / 2]
            },
    )
}

/// `items` riffled `times` times.
pub open spec fn riffled_times<T>(items: Seq<T>, times: nat) -> Seq<T>
    decreases times,
{
    if times == 0 {
        items
    } else {
        riffled(riffled_times(items, (times - 1) as nat))
    }
}

/// `items` with its first `by` items moved to the end.
pub open spec fn rotated_left<T>(items: Seq<T>, by: int) -> Seq<T> {
    items.subrange(by, items.len() as int) + items.subrange(0, by)
}

/// `items` with its last `by` items moved to the front.
pub open spec fn rotated_right<T>(items: Seq<T>, by: int) -> Seq<T> {
    items.subrange(items.len() - by, items.len() as int) + items.subrange(0, items.len() - by)
}

/// `text` followed by zero bytes up to the canonical length.
pub open spec fn padded(text: Seq<u8>) -> Seq<u8> {
    text + Seq::new((CANONICAL_LENGTH - text.len()) as nat, |i: int| 0u8)
}

/// `bytes` without its zero bytes.
pub open spec fn without_zeros(bytes: Seq<u8>) -> Seq<u8>
    decreases bytes.len(),
{
    if bytes.len() == 0 {
        bytes
    } else if bytes.last() == 0 {
        without_zeros(bytes.drop_last())
    } else {
        without_zeros(bytes.drop_last()).push(bytes.last())
    }
}

/// By how much a buffer is rotated: the sum of its bytes, modulo the
/// canonical length.
pub open spec fn rotation_of(buffer: Seq<u8>) -> int {
    (byte_sum(buffer) % (CANONICAL_LENGTH as nat)) as int
}

/// The canonical address of a text of at most the canonical length, given
/// by its bytes.
pub open spec fn canonical_bytes(text: Seq<u8>) -> Seq<u8> {
    let buffer = padded(text);
    riffled_times(rotated_left(buffer, rotation_of(buffer)), SHUFFLES_ENCODE as nat)
}

/// The bytes of the text behind a canonical address.
pub open spec fn humanized_bytes(canonical: Seq<u8>) -> Seq<u8> {
    let buffer = riffled_times(canonical, SHUFFLES_DECODE as nat);
    without_zeros(rotated_right(buffer, rotation_of(buffer)))
}

/// What canonicalizing gives for a lowercased text, given by its bytes: text
/// shorter than the minimum or longer than the canonical length is no
/// address.
pub open spec fn canonicalized(normalized: Seq<u8>) -> Result<Seq<u8>, SimpleVMError> {
    if normalized.len() < MINIMUM_LENGTH || normalized.len() > CANONICAL_LENGTH {
        Err(SimpleVMError::InvalidAddress)
    } else {
        Ok(canonical_bytes(normalized))
    }
}

/// The text that humanizing finds behind `canonical`: an address of another
/// length, or one whose bytes do not decode to text, is invalid.
pub open spec fn humanized_text(canonical: Seq<u8>) -> Result<Seq<char>, SimpleVMError> {
    if canonical.len() != CANONICAL_LENGTH || !valid_utf8(humanized_bytes(canonical)) {
        Err(SimpleVMError::InvalidAddress)
    } else {
        Ok(decode_utf8(humanized_bytes(canonical)))
    }
}

/// The account that humanizing finds behind `canonical`: the text behind
/// the address must spell one.
pub open spec fn humanized(canonical: Seq<u8>) -> Result<BankAccount, SimpleVMError> {
    match humanized_text(canonical) {
        Err(e) => Err(e),
        Ok(text) => match account_of(utf8(text)) {
            Some(account) => Ok(account),
            None => Err(SimpleVMError::InvalidAddress),
        },
    }
}

/// Whether a text is a valid address, by its bytes `input` and the bytes
/// `normalized` of its lowercase form. The outer result never fails; the
/// inner result is `InvalidAddress` unless the round trip through the codec
/// gives an account and the text itself spells that same account. A text
/// that spells no account is invalid, whatever its round trip gave.
pub open spec fn validated(input: Seq<u8>, normalized: Seq<u8>) -> Result<
    Result<(), SimpleVMError>,
    SimpleVMError,
> {
    match canonicalized(normalized) {
        Err(e) => Ok(Err(e)),
        Ok(canonical) => match humanized(canonical) {
            Err(e) => Ok(Err(e)),
            Ok(account) => match account_of(input) {
                None => Ok(Err(SimpleVMError::InvalidAddress)),
                Some(given) => if given != account {
                    Ok(Err(SimpleVMError::InvalidAddress))
                } else {
                    Ok(Ok(()))
                },
            },
        },
    }
}

/// The sum of the bytes of `input`.
pub fn digit_sum(input: &[u8]) -> (sum: usize)
    requires
        byte_sum(input@) <= usize::MAX,
    ensures
        sum == byte_sum(input@),
{
    let mut sum: usize = 0;
    let mut i: usize = 0;
    assert(input@.subrange(0, 0) =~= Seq::<u8>::empty());
    while i < input.len()
        invariant
            i <= input@.len(),
            sum == byte_sum(input@.subrange(0, i as int)),
            byte_sum(input@) <= usize::MAX,
        decreases input@.len() - i,
    {
        proof {
            assert(input@.subrange(0, i + 1).drop_last() =~= input@.subrange(0, i as int));
            lemma_byte_sum_grows(input@, i + 1);
        }
        sum = sum + input[i] as usize;
        i = i + 1;
    }
    assert(input@.subrange(0, i as int) =~= input@);
    sum
}

/// Riffles an even number of items: the result interleaves the two halves
/// of `input`, beginning with the first item of the second half.
pub fn riffle_shuffle<T: Clone>(input: &[T]) -> (shuffled: Vec<T>)
    requires
        input@.len() % 2 == 0,
    ensures
        shuffled@.len() == input@.len(),
        forall|j: int|
            0 <= j < shuffled@.len() ==> cloned(riffled(input@)[j], #[trigger] shuffled@[j]),
{
    let len = input.len();
    let mid = len / 2;
    let mut out: Vec<T> = Vec::with_capacity(len);
    let mut i: usize = 0;
    while i < mid
        invariant
            i <= mid,
            len == input@.len(),
            mid == len / 2,
            input@.len() % 2 == 0,
            out@.len() == 2 * i,
            forall|j: int| 0 <= j < out@.len() ==> cloned(riffled(input@)[j], #[trigger] out@[j]),
        decreases mid - i,
    {
        out.push(input[mid + i].clone());
        out.push(input[i].clone());
        i = i + 1;
    }
    out
}

/// A prefix of a buffer sums to no more than the buffer.
pub proof fn lemma_byte_sum_grows(bytes: Seq<u8>, n: int)
    requires
        0 <= n <= bytes.len(),
    ensures
        byte_sum(bytes.subrange(0, n)) <= byte_sum(bytes),
    decreases bytes.len(),
{
    if n == bytes.len() {
        assert(bytes.subrange(0, n) =~= bytes);
    } else {
        lemma_byte_sum_grows(bytes.drop_last(), n);
        assert(bytes.drop_last().subrange(0, n) =~= bytes.subrange(0, n));
    }
}

/// Riffling an even number of items keeps their number.
pub proof fn lemma_riffled_times_len<T>(items: Seq<T>, times: nat)
    requires
        items.len() % 2 == 0,
    ensures
        riffled_times(items, times).len() == items.len(),
    decreases times,
{
    if times > 0 {
        lemma_riffled_times_len(items, (times - 1) as nat);
    }
}

/// Riffling `first` times and then `then` times is riffling as often as
/// both together.
pub proof fn lemma_riffled_times_add<T>(items: Seq<T>, first: nat, then: nat)
    ensures
        riffled_times(riffled_times(items, first), then) == riffled_times(items, first + then),
    decreases then,
{
    if then > 0 {
        lemma_riffled_times_add(items, first, (then - 1) as nat);
    }
}

/// Where the item at place `j` of a riffled buffer of canonical length
/// came from.
pub open spec fn source(j: int) -> int {
    if j % 2 == 0 {
        CANONICAL_LENGTH / 2 + j / 2
    } else {
        j / 2
    }
}

/// Where the item at place `j` came from, `times` riffles ago.
pub open spec fn origin(j: int, times: nat) -> int
    decreases times,
{
    if times == 0 {
        j
    } else {
        origin(source(j), (times - 1) as nat)
    }
}

/// Two to the power of `n`.
pub open spec fn doubled(n: nat) -> int
    decreases n,
{
    if n == 0 {
        1
    } else {
        2 * doubled((n - 1) as nat)
    }
}

/// After any number of riffles, each place of a buffer of canonical length
/// holds the item that `origin` names.
proof fn lemma_riffled_times_origin<T>(items: Seq<T>, j: int, times: nat)
    requires
        items.len() == CANONICAL_LENGTH,
        0 <= j < CANONICAL_LENGTH,
    ensures
        0 <= origin(j, times) < CANONICAL_LENGTH,
        riffled_times(items, times).len() == CANONICAL_LENGTH,
        riffled_times(items, times)[j] == items[origin(j, times)],
    decreases times,
{
    if times > 0 {
        lemma_riffled_times_origin(items, source(j), (times - 1) as nat);
    }
}

/// Counting places from one, a riffle doubles the place of every item
/// modulo one more than the length: so `times` riffles multiply it by the
/// `times`-th power of two.
proof fn lemma_origin_doubles(j: int, times: nat)
    requires
        0 <= j < CANONICAL_LENGTH,
    ensures
        (doubled(times) * (origin(j, times) + 1)) % 55 == (j + 1) % 55,
    decreases times,
{
    if times > 0 {
        let earlier = (times - 1) as nat;
        let o = origin(source(j), earlier);
        lemma_origin_doubles(source(j), earlier);
        let a = doubled(earlier) * (o + 1);
        assert(doubled(times) * (o + 1) == 2 * a) by (nonlinear_arith)
            requires
                doubled(times) == 2 * doubled(earlier),
                a == doubled(earlier) * (o + 1),
        ;
        assert((2 * a) % 55 == (2 * (source(j) + 1)) % 55);
    }
}

/// Twenty riffles bring a buffer of canonical length back to where it
/// began.
pub proof fn lemma_riffle_period<T>(items: Seq<T>)
    requires
        items.len() == CANONICAL_LENGTH,
    ensures
        riffled_times(items, (SHUFFLES_ENCODE + SHUFFLES_DECODE) as nat) == items,
{
    let period: nat = 20;
    assert(doubled(period) == 1048576) by {
        reveal_with_fuel(doubled, 21);
    }
    lemma_riffled_times_len(items, period);
    assert forall|j: int| 0 <= j < CANONICAL_LENGTH implies riffled_times(items, period)[j]
        == items[j] by {
        lemma_riffled_times_origin(items, j, period);
        lemma_origin_doubles(j, period);
        let o = origin(j, period);
        assert((1048576 * (o + 1)) % 55 == (j + 1) % 55);
        assert(o == j);
    }
    assert(riffled_times(items, period) =~= items);
}

/// The sum of a buffer is at most 255 for each of its bytes.
pub proof fn lemma_byte_sum_bound(bytes: Seq<u8>)
    ensures
        byte_sum(bytes) <= 255 * bytes.len(),
    decreases bytes.len(),
{
    if bytes.len() > 0 {
        lemma_byte_sum_bound(bytes.drop_last());
    }
}

/// The sum of two buffers joined is the sum of their sums.
pub proof fn lemma_byte_sum_joined(front: Seq<u8>, back: Seq<u8>)
    ensures
        byte_sum(front + back) == byte_sum(front) + byte_sum(back),
    decreases back.len(),
{
    if back.len() == 0 {
        assert(front + back =~= front);
    } else {
        lemma_byte_sum_joined(front, back.drop_last());
        assert((front + back).drop_last() =~= front + back.drop_last());
    }
}

/// Rotating a buffer does not change its sum.
pub proof fn lemma_rotation_keeps_sum(bytes: Seq<u8>, by: int)
    requires
        0 <= by <= bytes.len(),
    ensures
        byte_sum(rotated_left(bytes, by)) == byte_sum(bytes),
{
    let front = bytes.subrange(0, by);
    let back = bytes.subrange(by, bytes.len() as int);
    lemma_byte_sum_joined(back, front);
    lemma_byte_sum_joined(front, back);
    assert(front + back =~= bytes);
}

/// Rotating right undoes rotating left by as much.
pub proof fn lemma_rotate_back<T>(items: Seq<T>, by: int)
    requires
        0 <= by <= items.len(),
    ensures
        rotated_right(rotated_left(items, by), by) == items,
{
    assert(rotated_right(rotated_left(items, by), by) =~= items);
}

/// Stripping the zero bytes of two buffers joined strips each.
pub proof fn lemma_without_zeros_joined(front: Seq<u8>, back: Seq<u8>)
    ensures
        without_zeros(front + back) == without_zeros(front) + without_zeros(back),
    decreases back.len(),
{
    if back.len() == 0 {
        assert(front + back =~= front);
        assert(without_zeros(front) + without_zeros(back) =~= without_zeros(front));
    } else {
        lemma_without_zeros_joined(front, back.drop_last());
        assert((front + back).drop_last() =~= front + back.drop_last());
        if back.last() != 0 {
            assert(without_zeros(front + back) =~= without_zeros(front) + without_zeros(back));
        }
    }
}

/// The padding of a text is stripped whole.
pub proof fn lemma_without_zeros_padded(text: Seq<u8>)
    requires
        text.len() <= CANONICAL_LENGTH,
    ensures
        without_zeros(padded(text)) == without_zeros(text),
{
    let padding = Seq::new((CANONICAL_LENGTH - text.len()) as nat, |i: int| 0u8);
    lemma_without_zeros_joined(text, padding);
    lemma_zeros_vanish(padding);
    assert(without_zeros(text) + Seq::<u8>::empty() =~= without_zeros(text));
}

/// Of a buffer of zero bytes nothing is left.
proof fn lemma_zeros_vanish(zeros: Seq<u8>)
    requires
        forall|i: int| 0 <= i < zeros.len() ==> zeros[i] == 0,
    ensures
        without_zeros(zeros) == Seq::<u8>::empty(),
    decreases zeros.len(),
{
    if zeros.len() > 0 {
        lemma_zeros_vanish(zeros.drop_last());
    }
}

/// A buffer that holds no zero byte is left as it is.
pub proof fn lemma_without_zeros_keeps(bytes: Seq<u8>)
    requires
        forall|i: int| 0 <= i < bytes.len() ==> bytes[i] != 0,
    ensures
        without_zeros(bytes) == bytes,
    decreases bytes.len(),
{
    if bytes.len() > 0 {
        lemma_without_zeros_keeps(bytes.drop_last());
        assert(bytes.drop_last().push(bytes.last()) =~= bytes);
    }
}

/// Humanizing inverts canonicalizing: behind the canonical address of a
/// text of at most the canonical length stand the bytes of that text,
/// less its zero bytes. A text that holds no zero byte comes back exactly.
pub proof fn lemma_humanize_inverts_canonicalize(text: Seq<u8>)
    requires
        text.len() <= CANONICAL_LENGTH,
    ensures
        canonical_bytes(text).len() == CANONICAL_LENGTH,
        humanized_bytes(canonical_bytes(text)) == without_zeros(text),
        (forall|i: int| 0 <= i < text.len() ==> text[i] != 0) ==> humanized_bytes(
            canonical_bytes(text),
        ) == text,
{
    let buffer = padded(text);
    let by = rotation_of(buffer);
    let rotated = rotated_left(buffer, by);
    let canonical = canonical_bytes(text);
    lemma_riffled_times_len(rotated, SHUFFLES_ENCODE as nat);
    lemma_riffled_times_add(rotated, SHUFFLES_ENCODE as nat, SHUFFLES_DECODE as nat);
    lemma_riffle_period(rotated);
    assert(riffled_times(canonical, SHUFFLES_DECODE as nat) == rotated);
    lemma_rotation_keeps_sum(buffer, by);
    lemma_rotate_back(buffer, by);
    lemma_without_zeros_padded(text);
    if forall|i: int| 0 <= i < text.len() ==> text[i] != 0 {
        lemma_without_zeros_keeps(text);
    }
}

/// A text of the right length without null characters survives the round
/// trip through the codec: humanizing its canonical address gives the text
/// back, character for character. It is the lowercase form of a text that
/// is canonicalized, so a text in lowercase comes back as it was written.
pub proof fn lemma_text_round_trip(text: Seq<char>)
    requires
        MINIMUM_LENGTH <= utf8(text).len() <= CANONICAL_LENGTH,
        forall|i: int| 0 <= i < text.len() ==> text[i] != '\0',
    ensures
        canonicalized(utf8(text)) is Ok,
        humanized_text(canonicalized(utf8(text))->Ok_0) == Ok::<Seq<char>, SimpleVMError>(text),
{
    crate::text::lemma_utf8_zero_free(text);
    lemma_humanize_inverts_canonicalize(utf8(text));
    vstd::utf8::encode_utf8_valid_utf8(text);
    vstd::utf8::encode_utf8_decode_utf8(text);
}

/// Whatever text the round trip through the codec gives, it is the text
/// that went in, less its null characters' bytes: no round trip that
/// succeeds gives any other text.
pub proof fn lemma_round_trip_gives_no_other_text(text: Seq<char>)
    requires
        canonicalized(utf8(text)) is Ok,
        humanized_text(canonicalized(utf8(text))->Ok_0) is Ok,
    ensures
        utf8(humanized_text(canonicalized(utf8(text))->Ok_0)->Ok_0) == without_zeros(utf8(text)),
{
    lemma_humanize_inverts_canonicalize(utf8(text));
    vstd::utf8::decode_utf8_encode_utf8(without_zeros(utf8(text)));
}

/// A text is judged valid or fails with `InvalidAddress`, and with nothing
/// else: whether it is canonicalizing or humanizing that fails, or the text
/// itself spells no account, or another account than its round trip gives.
/// It is valid exactly where the round trip gives the account that the text
/// spells.
pub proof fn lemma_validate_fails_with_invalid_address(input: Seq<u8>, normalized: Seq<u8>)
    ensures
        validated(input, normalized) == Ok::<Result<(), SimpleVMError>, SimpleVMError>(Ok(()))
            || validated(input, normalized) == Ok::<Result<(), SimpleVMError>, SimpleVMError>(
            Err(SimpleVMError::InvalidAddress),
        ),
        validated(input, normalized) == Ok::<Result<(), SimpleVMError>, SimpleVMError>(Ok(()))
            <==> canonicalized(normalized) is Ok && account_of(input) is Some && humanized(
            canonicalized(normalized)->Ok_0,
        ) == Ok::<BankAccount, SimpleVMError>(account_of(input)->Some_0),
{
}

/// What is no address is refused: text of fewer bytes than the minimum or
/// of more than the canonical length, and so any text of more characters
/// than the canonical length, cannot be canonicalized; an address of the
/// canonical length whose bytes are no text cannot be humanized.
pub proof fn lemma_rejection(text: Seq<char>, canonical: Seq<u8>)
    ensures
        utf8(text).len() < MINIMUM_LENGTH || utf8(text).len() > CANONICAL_LENGTH ==> canonicalized(
            utf8(text),
        ) == Err::<Seq<u8>, SimpleVMError>(SimpleVMError::InvalidAddress),
        text.len() > CANONICAL_LENGTH ==> canonicalized(utf8(text)) == Err::<
            Seq<u8>,
            SimpleVMError,
        >(SimpleVMError::InvalidAddress),
        canonical.len() == CANONICAL_LENGTH && !valid_utf8(humanized_bytes(canonical))
            ==> humanized_text(canonical) == Err::<Seq<char>, SimpleVMError>(
            SimpleVMError::InvalidAddress,
        ) && humanized(canonical) == Err::<BankAccount, SimpleVMError>(
            SimpleVMError::InvalidAddress,
        ),
        canonical.len() != CANONICAL_LENGTH ==> humanized(canonical) == Err::<
            BankAccount,
            SimpleVMError,
        >(SimpleVMError::InvalidAddress),
{
    crate::text::lemma_utf8_len(text);
}

/// The decimal text of an account of three digits or more survives the
/// round trip through the codec: humanizing its canonical address gives
/// the account, and the text is valid.
pub proof fn lemma_account_round_trip(account: BankAccount)
    requires
        account.0 >= 100,
    ensures
        canonicalized(decimal(account.0 as nat)) is Ok,
        humanized(canonicalized(decimal(account.0 as nat))->Ok_0) == Ok::<
            BankAccount,
            SimpleVMError,
        >(account),
        validated(decimal(account.0 as nat), decimal(account.0 as nat)) == Ok::<
            Result<(), SimpleVMError>,
            SimpleVMError,
        >(Ok(())),
{
    let text = decimal(account.0 as nat);
    lemma_decimal_len(account.0 as nat);
    lemma_decimal_spells(account.0 as nat);
    lemma_account_of_decimal(account);
    assert forall|i: int| 0 <= i < text.len() implies text[i] != 0 by {
        assert(is_digit(text[i]));
    }
    lemma_humanize_inverts_canonicalize(text);
    crate::text::lemma_ascii_bytes_are_text(text);
}

/// A number below ten to the power of `k` has at most `k` decimal digits,
/// and one of at least a hundred has three or more.
pub proof fn lemma_decimal_len(n: nat)
    ensures
        n >= 100 ==> decimal(n).len() >= 3,
        n <= u32::MAX ==> decimal(n).len() <= 10,
{
    reveal_with_fuel(decimal, 11);
}

/// Riffles bytes.
fn riffle_bytes(buffer: &Vec<u8>) -> (shuffled: Vec<u8>)
    requires
        buffer@.len() % 2 == 0,
    ensures
        shuffled@ == riffled(buffer@),
{
    let shuffled = riffle_shuffle(buffer.as_slice());
    assert(shuffled@ =~= riffled(buffer@));
    shuffled
}

/// Riffles bytes `times` times.
fn riffle_repeatedly(buffer: Vec<u8>, times: usize) -> (shuffled: Vec<u8>)
    requires
        buffer@.len() % 2 == 0,
    ensures
        shuffled@ == riffled_times(buffer@, times as nat),
{
    let mut out = buffer;
    let mut done: usize = 0;
    while done < times
        invariant
            done <= times,
            buffer@.len() % 2 == 0,
            out@ == riffled_times(buffer@, done as nat),
        decreases times - done,
    {
        proof {
            lemma_riffled_times_len(buffer@, done as nat);
        }
        out = riffle_bytes(&out);
        done = done + 1;
    }
    out
}

/// Moves the first `by` bytes to the end.
fn rotate_left(buffer: &Vec<u8>, by: usize) -> (rotated: Vec<u8>)
    requires
        by <= buffer@.len(),
    ensures
        rotated@ == rotated_left(buffer@, by as int),
{
    let len = buffer.len();
    let mut out: Vec<u8> = Vec::with_capacity(len);
    let mut i: usize = by;
    while i < len
        invariant
            by <= i <= len,
            len == buffer@.len(),
            out@ == buffer@.subrange(by as int, i as int),
        decreases len - i,
    {
        out.push(buffer[i]);
        assert(out@ =~= buffer@.subrange(by as int, i + 1));
        i = i + 1;
    }
    let mut k: usize = 0;
    while k < by
        invariant
            k <= by <= len,
            len == buffer@.len(),
            out@ == buffer@.subrange(by as int, len as int) + buffer@.subrange(0, k as int),
        decreases by - k,
    {
        out.push(buffer[k]);
        assert(out@ =~= buffer@.subrange(by as int, len as int) + buffer@.subrange(0, k + 1));
        k = k + 1;
    }
    out
}

/// Moves the last `by` bytes to the front.
fn rotate_right(buffer: &Vec<u8>, by: usize) -> (rotated: Vec<u8>)
    requires
        by <= buffer@.len(),
    ensures
        rotated@ == rotated_right(buffer@, by as int),
{
    rotate_left(buffer, buffer.len() - by)
}

/// Drops the zero bytes.
fn strip_zeros(buffer: &Vec<u8>) -> (stripped: Vec<u8>)
    ensures
        stripped@ == without_zeros(buffer@),
{
    let mut out: Vec<u8> = Vec::new();
    let mut i: usize = 0;
    assert(buffer@.subrange(0, 0) =~= Seq::<u8>::empty());
    while i < buffer.len()
        invariant
            i <= buffer@.len(),
            out@ == without_zeros(buffer@.subrange(0, i as int)),
        decreases buffer@.len() - i,
    {
        assert(buffer@.subrange(0, i + 1).drop_last() =~= buffer@.subrange(0, i as int));
        if buffer[i] != 0 {
            out.push(buffer[i]);
        }
        i = i + 1;
    }
    assert(buffer@.subrange(0, i as int) =~= buffer@);
    out
}

/// Canonicalizes a text that is in lowercase already. Text whose bytes
/// number fewer than the minimum or more than the canonical length is
/// refused with `InvalidAddress`; any other text gets its canonical address.
pub fn canonicalize_normalized(normalized: &str) -> (r: Result<CanonicalAddress, SimpleVMError>)
    ensures
        match canonicalized(utf8(normalized@)) {
            Ok(canonical) => r matches Ok(address) && address.0@ == canonical,
            Err(e) => r == Err::<CanonicalAddress, SimpleVMError>(e),
        },
{
    let len = normalized.len();
    if len < MINIMUM_LENGTH {
        return Err(SimpleVMError::InvalidAddress);
    }
    if len > CANONICAL_LENGTH {
        return Err(SimpleVMError::InvalidAddress);
    }
    let mut out = normalized.as_bytes_vec();
    out.resize(CANONICAL_LENGTH, 0);
    proof {
        assert(out@ =~= padded(utf8(normalized@)));
        lemma_byte_sum_bound(out@);
    }
    let rotate_by = digit_sum(out.as_slice()) % CANONICAL_LENGTH;
    let out = rotate_left(&out, rotate_by);
    let out = riffle_repeatedly(out, SHUFFLES_ENCODE);
    Ok(CanonicalAddress(out))
}

/// Canonicalizes `input`: the text is put in lowercase first, so that all
/// casings of one address have one canonical form.
pub fn canonicalize(input: &str) -> (r: Result<CanonicalAddress, SimpleVMError>)
    ensures
        match canonicalized(utf8(lowercase(input@))) {
            Ok(canonical) => r matches Ok(address) && address.0@ == canonical,
            Err(e) => r == Err::<CanonicalAddress, SimpleVMError>(e),
        },
{
    let normalized = to_lowercase(input);
    canonicalize_normalized(normalized.as_str())
}

/// Finds the text behind a canonical address. An address of another than
/// the canonical length, or one whose bytes do not decode to text, is
/// refused with `InvalidAddress`.
pub fn humanize_text(addr: &CanonicalAddress) -> (r: Result<String, SimpleVMError>)
    ensures
        match humanized_text(addr.0@) {
            Ok(text) => r matches Ok(human) && human@ == text,
            Err(e) => r == Err::<String, SimpleVMError>(e),
        },
{
    if addr.0.len() != CANONICAL_LENGTH {
        return Err(SimpleVMError::InvalidAddress);
    }
    let tmp = riffle_repeatedly(addr.0.clone(), SHUFFLES_DECODE);
    proof {
        lemma_riffled_times_len(addr.0@, SHUFFLES_DECODE as nat);
        lemma_byte_sum_bound(tmp@);
    }
    let rotate_by = digit_sum(tmp.as_slice()) % CANONICAL_LENGTH;
    let tmp = rotate_right(&tmp, rotate_by);
    let trimmed = strip_zeros(&tmp);
    match string_from_utf8(trimmed) {
        Some(human) => Ok(human),
        None => Err(SimpleVMError::InvalidAddress),
    }
}

/// Finds the account behind a canonical address: the text behind the
/// address must spell an account, else the address is refused with
/// `InvalidAddress`.
pub fn humanize(addr: &CanonicalAddress) -> (r: Result<BankAccount, SimpleVMError>)
    ensures
        r == humanized(addr.0@),
{
    match humanize_text(addr) {
        Err(e) => Err(e),
        Ok(human) => match account_from_bytes(human.as_str().as_bytes()) {
            Some(account) => Ok(account),
            None => Err(SimpleVMError::InvalidAddress),
        },
    }
}

/// Judges `input`, whose lowercase form is `normalized`: the text is valid
/// where its canonical address leads back to the account that the text
/// itself spells. The call itself never fails; the inner result is
/// `InvalidAddress` for every text that is not valid, also for one that
/// spells no account while its round trip gives one.
pub fn validate_normalized(input: &str, normalized: &str) -> (r: Result<
    Result<(), SimpleVMError>,
    SimpleVMError,
>)
    ensures
        r == validated(utf8(input@), utf8(normalized@)),
        r is Ok,
{
    let canonical = match canonicalize_normalized(normalized) {
        Ok(canonical) => canonical,
        Err(e) => return Ok(Err(e)),
    };
    let account = match humanize(&canonical) {
        Ok(account) => account,
        Err(e) => return Ok(Err(e)),
    };
    let given = match account_from_bytes(input.as_bytes()) {
        Some(given) => given,
        None => return Ok(Err(SimpleVMError::InvalidAddress)),
    };
    if given != account {
        Ok(Err(SimpleVMError::InvalidAddress))
    } else {
        Ok(Ok(()))
    }
}

/// Judges `input`: the text is valid where its canonical address leads
/// back to the account that the text itself spells. The call itself never
/// fails; the inner result is `InvalidAddress` for every text that is not
/// valid.
pub fn validate(input: &str) -> (r: Result<Result<(), SimpleVMError>, SimpleVMError>)
    ensures
        r == validated(utf8(input@), utf8(lowercase(input@))),
        r is Ok,
{
    let normalized = to_lowercase(input);
    validate_normalized(input, normalized.as_str())
}

} // verus!

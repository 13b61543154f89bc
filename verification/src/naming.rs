//! Entry keys for the durable queue.
//!
//! A new entry is keyed by the enqueue time in milliseconds, rendered in
//! decimal, a dash, a short random alphanumeric tie-breaker, and a fixed
//! extension. With a monotonic clock the keys of later entries sort
//! lexicographically after earlier ones while the decimal width stays the
//! same; two entries created within one millisecond tie and their order is
//! arbitrary — a documented weak ordering, not a strict one.
use vstd::prelude::*;
use rand::Rng;
use crate::order::lex_le;

verus! {

/// How many random tie-breaker bytes a key carries.
pub const SUFFIX_LEN: usize = 6;

/// The decimal rendering of a number, most significant digit first.
pub open spec fn dec_digits(n: nat) -> Seq<u8>
    decreases n,
{
    if n < 10 {
        seq![(48 + n) as u8]
    } else {
        dec_digits(n / 10).push((48 + n % 10) as u8)
    }
}

/// The fixed extension every entry key ends with: ".ndjson".
pub open spec fn entry_ext() -> Seq<u8> {
    seq![46u8, 110u8, 100u8, 106u8, 115u8, 111u8, 110u8]
}

/// The full key for an enqueue time and a tie-breaker.
pub open spec fn entry_name_of(millis: u64, suffix: Seq<u8>) -> Seq<u8> {
    dec_digits(millis as nat) + seq![45u8] + suffix + entry_ext()
}

/// A byte that an entry key's tie-breaker may hold: an ASCII letter or
/// digit.
pub open spec fn is_alphanumeric_byte(b: u8) -> bool {
    (48 <= b && b <= 57) || (65 <= b && b <= 90) || (97 <= b && b <= 122)
}

/// Every decimal rendering has at least one digit.
proof fn lemma_dec_digits_len(n: nat)
    ensures
        dec_digits(n).len() >= 1,
        n < 10 <==> dec_digits(n).len() == 1,
    decreases n,
{
    if n >= 10 {
        lemma_dec_digits_len(n / 10);
    }
}

/// Extending two equally long byte runs by one byte each: the longer runs
/// compare by the old bytes where those differ, by the new bytes where
/// they do not.
proof fn lemma_lex_push(a: Seq<u8>, b: Seq<u8>, x: u8, y: u8)
    requires
        a.len() == b.len(),
    ensures
        lex_le(a.push(x), b.push(y)) == if a == b {
            x <= y
        } else {
            lex_le(a, b)
        },
    decreases a.len(),
{
    if a.len() == 0 {
        assert(a =~= b);
        assert(a.push(x)[0] == x && b.push(y)[0] == y);
        assert(a.push(x).drop_first() =~= Seq::<u8>::empty());
        assert(b.push(y).drop_first() =~= Seq::<u8>::empty());
        if x == y {
            assert(lex_le(a.push(x).drop_first(), b.push(y).drop_first()));
        }
    } else {
        assert(a.push(x)[0] == a[0] && b.push(y)[0] == b[0]);
        if a[0] == b[0] {
            assert(a.push(x).drop_first() =~= a.drop_first().push(x));
            assert(b.push(y).drop_first() =~= b.drop_first().push(y));
            lemma_lex_push(a.drop_first(), b.drop_first(), x, y);
            assert(lex_le(a.push(x), b.push(y)) == lex_le(
                a.drop_first().push(x),
                b.drop_first().push(y),
            ));
            assert(lex_le(a, b) == lex_le(a.drop_first(), b.drop_first()));
            if a.drop_first() == b.drop_first() {
                assert forall|i: int| 0 <= i < a.len() implies a[i] == b[i] by {
                    if i > 0 {
                        assert(a[i] == a.drop_first()[i - 1]);
                        assert(b[i] == b.drop_first()[i - 1]);
                    }
                }
                assert(a =~= b);
            } else {
                assert(a != b);
            }
        } else {
            assert(a != b);
        }
    }
}

/// Two equally long byte runs that differ decide the order of anything
/// appended after them.
proof fn lemma_lex_concat_strict(a: Seq<u8>, b: Seq<u8>, t1: Seq<u8>, t2: Seq<u8>)
    requires
        a.len() == b.len(),
        lex_le(a, b),
        a != b,
    ensures
        lex_le(a + t1, b + t2),
    decreases a.len(),
{
    if a.len() == 0 {
        assert(a =~= b);
    } else {
        assert((a + t1)[0] == a[0] && (b + t2)[0] == b[0]);
        assert((a + t1).len() > 0 && (b + t2).len() > 0);
        if a[0] == b[0] {
            if a.drop_first() == b.drop_first() {
                assert forall|i: int| 0 <= i < a.len() implies a[i] == b[i] by {
                    if i > 0 {
                        assert(a[i] == a.drop_first()[i - 1]);
                        assert(b[i] == b.drop_first()[i - 1]);
                    }
                }
                assert(a =~= b);
            }
            assert((a + t1).drop_first() =~= a.drop_first() + t1);
            assert((b + t2).drop_first() =~= b.drop_first() + t2);
            lemma_lex_concat_strict(a.drop_first(), b.drop_first(), t1, t2);
        }
    }
}

/// Equally wide decimal renderings order as the numbers do, and distinct
/// numbers render distinctly.
proof fn lemma_dec_digits_order(m1: nat, m2: nat)
    requires
        m1 <= m2,
        dec_digits(m1).len() == dec_digits(m2).len(),
    ensures
        lex_le(dec_digits(m1), dec_digits(m2)),
        m1 < m2 ==> dec_digits(m1) != dec_digits(m2),
    decreases m2,
{
    lemma_dec_digits_len(m1);
    lemma_dec_digits_len(m2);
    if m2 < 10 {
        let a = dec_digits(m1);
        let b = dec_digits(m2);
        assert(a[0] == 48 + m1 && b[0] == 48 + m2);
        if m1 < m2 {
            assert(a[0] != b[0]);
        }
        if a[0] == b[0] {
            assert(a.drop_first() =~= Seq::<u8>::empty());
            assert(b.drop_first() =~= Seq::<u8>::empty());
            assert(lex_le(a.drop_first(), b.drop_first()));
        }
    } else {
        // Equal widths leave both numbers at two or more digits.
        assert(m1 >= 10);
        let a = dec_digits(m1 / 10);
        let b = dec_digits(m2 / 10);
        let x = (48 + m1 % 10) as u8;
        let y = (48 + m2 % 10) as u8;
        vstd::arithmetic::div_mod::lemma_div_is_ordered(m1 as int, m2 as int, 10);
        lemma_dec_digits_len(m1 / 10);
        lemma_dec_digits_len(m2 / 10);
        lemma_dec_digits_order(m1 / 10, m2 / 10);
        lemma_lex_push(a, b, x, y);
        assert(dec_digits(m1) == a.push(x));
        assert(dec_digits(m2) == b.push(y));
        if m1 / 10 == m2 / 10 {
            assert(m1 % 10 <= m2 % 10);
            if m1 < m2 {
                assert(x != y);
                assert(dec_digits(m1).last() != dec_digits(m2).last());
            }
        } else {
            assert(a != b);
            if dec_digits(m1) == dec_digits(m2) {
                assert(a.push(x) =~= b.push(y));
                assert forall|i: int| 0 <= i < a.len() implies a[i] == b[i] by {
                    assert(a.push(x)[i] == b.push(y)[i]);
                }
                assert(a =~= b);
            }
        }
    }
}

/// Law: entry keys sort by enqueue time. While two timestamps render at
/// the same decimal width, the key of the earlier entry sorts
/// lexicographically before the key of the later one, whatever the
/// tie-breakers; keys within one millisecond tie and order arbitrarily.
pub proof fn lemma_entry_names_follow_time(millis1: u64, millis2: u64, s1: Seq<u8>, s2: Seq<u8>)
    requires
        millis1 < millis2,
        dec_digits(millis1 as nat).len() == dec_digits(millis2 as nat).len(),
    ensures
        lex_le(entry_name_of(millis1, s1), entry_name_of(millis2, s2)),
{
    let a = dec_digits(millis1 as nat);
    let b = dec_digits(millis2 as nat);
    lemma_dec_digits_order(millis1 as nat, millis2 as nat);
    lemma_lex_concat_strict(a, b, seq![45u8] + s1 + entry_ext(), seq![45u8] + s2 + entry_ext());
    assert(entry_name_of(millis1, s1) =~= a + (seq![45u8] + s1 + entry_ext()));
    assert(entry_name_of(millis2, s2) =~= b + (seq![45u8] + s2 + entry_ext()));
}

/// Appends the decimal rendering of `n`.
fn push_decimal(out: &mut Vec<u8>, n: u64)
    ensures
        final(out)@ == old(out)@ + dec_digits(n as nat),
    decreases n,
{
    if n < 10 {
        out.push(48 + n as u8);
        proof {
            assert(out@ =~= old(out)@ + dec_digits(n as nat));
        }
    } else {
        push_decimal(out, n / 10);
        out.push(48 + (n % 10) as u8);
        proof {
            assert(out@ =~= old(out)@ + dec_digits(n as nat));
        }
    }
}

/// Builds the key for one new entry from its enqueue time and tie-breaker.
pub fn make_entry_name(millis: u64, suffix: &Vec<u8>) -> (name: Vec<u8>)
    ensures
        name@ == entry_name_of(millis, suffix@),
{
    let mut name: Vec<u8> = Vec::new();
    push_decimal(&mut name, millis);
    name.push(45);
    let mut i: usize = 0;
    while i < suffix.len()
        invariant
            i <= suffix@.len(),
            name@ == dec_digits(millis as nat) + seq![45u8] + suffix@.take(i as int),
        decreases suffix@.len() - i,
    {
        name.push(suffix[i]);
        proof {
            assert(name@ =~= dec_digits(millis as nat) + seq![45u8] + suffix@.take(i + 1));
        }
        i = i + 1;
    }
    name.push(46);
    name.push(110);
    name.push(100);
    name.push(106);
    name.push(115);
    name.push(111);
    name.push(110);
    proof {
        assert(suffix@.take(suffix@.len() as int) =~= suffix@);
        assert(name@ =~= entry_name_of(millis, suffix@));
    }
    name
}

/// Relies on time::OffsetDateTime::now_utc, read out through
/// unix_timestamp_nanos: the clock's current reading, of which nothing is
/// assumed.
#[verifier::external_body]
fn now_unix_nanos() -> (r: i128) {
    time::OffsetDateTime::now_utc().unix_timestamp_nanos()
}

/// Relies on rand's Alphanumeric distribution, sampled from the thread's
/// generator: every drawn byte is an ASCII letter or digit.
#[verifier::external_body]
fn random_alphanumeric_bytes(n: usize) -> (r: Vec<u8>)
    ensures
        r@.len() == n,
        forall|i: int| 0 <= i < r@.len() ==> is_alphanumeric_byte(#[trigger] r@[i]),
{
    rand::thread_rng().sample_iter(&rand::distributions::Alphanumeric).take(n).collect()
}

/// The enqueue timestamp a clock reading yields: milliseconds since the
/// epoch, clamped to the representable range.
pub open spec fn millis_of_nanos(nanos: int) -> int {
    if nanos <= 0 {
        0
    } else if nanos / 1_000_000 > 0xffff_ffff_ffff_ffff {
        0xffff_ffff_ffff_ffff
    } else {
        nanos / 1_000_000
    }
}

/// Turns a clock reading in nanoseconds into the millisecond timestamp an
/// entry key carries.
pub fn millis_from_nanos(nanos: i128) -> (r: u64)
    ensures
        r as int == millis_of_nanos(nanos as int),
{
    if nanos <= 0 {
        0
    } else {
        let m: u128 = (nanos as u128) / 1_000_000;
        if m > 0xffff_ffff_ffff_ffff {
            0xffff_ffff_ffff_ffff
        } else {
            m as u64
        }
    }
}

/// A byte sequence of the key shape: decimal milliseconds, a dash, a
/// tie-breaker of alphanumeric bytes, and the fixed extension.
pub open spec fn is_entry_key(name: Seq<u8>) -> bool {
    exists|millis: u64, suffix: Seq<u8>|
        name == #[trigger] entry_name_of(millis, suffix) && suffix.len() == SUFFIX_LEN && (forall|
            i: int,
        | 0 <= i < suffix.len() ==> is_alphanumeric_byte(#[trigger] suffix[i]))
}

/// Draws the key for one new entry: the clock's milliseconds, a dash, and
/// a fresh alphanumeric tie-breaker. The clock and the tie-breaker decide
/// the value; every result has the key shape.
pub fn fresh_entry_name() -> (name: Vec<u8>)
    ensures
        is_entry_key(name@),
{
    let nanos = now_unix_nanos();
    let millis = millis_from_nanos(nanos);
    let suffix = random_alphanumeric_bytes(SUFFIX_LEN);
    let name = make_entry_name(millis, &suffix);
    proof {
        assert(name@ == entry_name_of(millis, suffix@));
    }
    name
}

} // verus!
